# rgblitz

A colour-guessing game run by a microcontroller with two RGB LEDs. Players
send guesses over MQTT; the device scores each guess by how close its colour
is to a secret colour, counts each round down, and shows the best guess and
the secret on its LEDs.

- `src/` is the verified library:
  - `protocol.rs`: parsing player packets into messages, encoding game events
    into packets of at most 16 bytes;
  - `game.rs`: the game state machine (rounds, guesses, countdown, LED
    animations) and the laws it keeps;
  - `score.rs`: closeness scores held as single-precision bit patterns, with
    IEEE-754 `>=` and the saturating cast to `u8` proved against the real
    values;
  - `device.rs`: LED duty cycles and the choice of Wi-Fi network;
  - `outside.rs`: the calls into `heapless` and `chrono`, with their contracts.
- `app/` is the firmware around it: Wi-Fi, MQTT, the LED drivers, the
  hardware random number generator and the floating-point colour geometry.
- `tests/` exercises the library on concrete values.
