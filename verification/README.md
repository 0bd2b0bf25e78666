# Laser tank

A game for two players: each drives a tank with a gamepad and shoots at the
other with infrared light. A server reads the gamepads, talks to the tanks by
UDP and keeps the score.

`src/` is the verified library:

- `wire`, `communication`: the messages and their bytes
- `logic`: the server's bookkeeping of tanks and gamepads
- `game`, `clock`: the rules of a round and its clock
- `view`: what the screen shows
- `robot`, `motor`: what a tank does with a message, and how its motors follow
- `single`: single precision numbers in whole numbers
- `settings`: settings that come as text
- `laws`: what holds of the game as a whole

`app/` is what surrounds it: `main.rs` is the server with its window, and
`esp32/main.rs` is the firmware of a tank.

The server and the firmware take their settings from the environment of their
build, and one that is missing stops it. `extras/with_settings.sh` runs a build
with the settings of a file `.env`.
