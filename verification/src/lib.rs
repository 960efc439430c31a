//! Game logic of a colour-guessing game played against a device with two RGB
//! LEDs: the wire protocol between players and the device, the round and
//! scoring state machine, the LED animation schedule, and the device-side
//! decisions on LED duty cycles and Wi-Fi networks.
pub mod device;
pub mod game;
pub mod outside;
pub mod protocol;
pub mod score;
