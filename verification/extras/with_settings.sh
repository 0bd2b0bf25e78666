#!/bin/sh
# Runs a command, such as a build of the server, with the settings of the file
# .env above this project in its environment:
#
#   sh extras/with_settings.sh COMMAND ARGUMENTS...
#
# The file holds one NAME=VALUE per line: SERVER_IP, RECEIVE_PORT and INTERVAL
# for the server, and SSID, PASSWORD and SEND_PORT for a tank besides. Without
# the file, the settings are those of the environment.

settings="$(dirname "$0")/../../.env"
if [ -f "$settings" ]; then
    set -a
    . "$settings"
    set +a
fi
exec "$@"
