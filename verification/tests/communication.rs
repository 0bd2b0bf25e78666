use laser_tank::communication::{
    detect_id_change, ControllerState, DecodeError, RobotRespond, ServerData,
    ROBOT_RESPOND_MAX_SIZE, SERVER_DATA_MAX_SIZE,
};

#[test]
fn default_controller_is_centred() {
    assert_eq!(ControllerState::default(), ControllerState { stick: (0, 0), shot_id: 0 });
}

#[test]
fn controller_message_bytes() {
    let message = ServerData::Controller(ControllerState { stick: (-1, 127), shot_id: 200 });
    assert_eq!(message.to_bytes(), vec![0u8, 255, 127, 200]);
}

#[test]
fn set_id_message_bytes() {
    assert_eq!(ServerData::SetID(2).to_bytes(), vec![1u8, 2]);
}

#[test]
fn server_data_round_trip() {
    for x in -128i16..128 {
        let message = ServerData::Controller(ControllerState {
            stick: (x as i8, (-1 - x) as i8),
            shot_id: (x + 128) as u8,
        });
        let mut bytes = message.to_bytes();
        assert!(bytes.len() <= SERVER_DATA_MAX_SIZE);
        bytes.push(77);
        assert_eq!(ServerData::from_bytes(&bytes), Ok(message));
        let message = ServerData::SetID((x + 128) as u8);
        let mut bytes = message.to_bytes();
        bytes.push(9);
        assert_eq!(ServerData::from_bytes(&bytes), Ok(message));
    }
}

#[test]
fn robot_respond_round_trip() {
    let message = RobotRespond { robot_id: 1, hit_id: 255 };
    let mut bytes = message.to_bytes();
    assert_eq!(bytes, vec![1u8, 255]);
    assert_eq!(bytes.len(), ROBOT_RESPOND_MAX_SIZE);
    bytes.push(3);
    bytes.push(4);
    assert_eq!(RobotRespond::from_bytes(&bytes), Ok(message));
}

#[test]
fn tag_may_be_a_long_varint() {
    assert_eq!(ServerData::from_bytes(&[0x81, 0x00, 5]), Ok(ServerData::SetID(5)));
    assert_eq!(ServerData::from_bytes(&[0x81, 0x80, 0x80, 0x80, 0x00, 6]), Ok(ServerData::SetID(6)));
}

#[test]
fn bad_tags_are_refused() {
    assert_eq!(ServerData::from_bytes(&[]), Err(DecodeError::BadTag));
    assert_eq!(ServerData::from_bytes(&[0x80]), Err(DecodeError::BadTag));
    assert_eq!(
        ServerData::from_bytes(&[0x80, 0x80, 0x80, 0x80, 0x10, 0]),
        Err(DecodeError::BadTag)
    );
    assert_eq!(
        ServerData::from_bytes(&[0x80, 0x80, 0x80, 0x80, 0x80, 0]),
        Err(DecodeError::BadTag)
    );
}

#[test]
fn unknown_variants_are_refused() {
    assert_eq!(ServerData::from_bytes(&[2, 1]), Err(DecodeError::UnknownVariant));
    assert_eq!(
        ServerData::from_bytes(&[0xff, 0xff, 0xff, 0xff, 0x0f, 0]),
        Err(DecodeError::UnknownVariant)
    );
}

#[test]
fn short_messages_are_refused() {
    assert_eq!(ServerData::from_bytes(&[0, 1, 2]), Err(DecodeError::Truncated));
    assert_eq!(ServerData::from_bytes(&[1]), Err(DecodeError::Truncated));
    assert_eq!(RobotRespond::from_bytes(&[1]), Err(DecodeError::Truncated));
    assert_eq!(RobotRespond::from_bytes(&[]), Err(DecodeError::Truncated));
}

#[test]
fn id_change_is_seen_once() {
    let mut now = 0u8;
    assert!(!detect_id_change(&mut now, 0));
    assert!(detect_id_change(&mut now, 1));
    assert_eq!(now, 1);
    assert!(!detect_id_change(&mut now, 1));
    for _ in 0..300 {
        let next = now.wrapping_add(1);
        assert!(detect_id_change(&mut now, next));
    }
}
