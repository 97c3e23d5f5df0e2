//! The decisions of a temperature and humidity probe on an ESP32-C6: how it starts up and
//! measures, how it stays connected, how it talks to its MQTT broker, and how it updates its own
//! firmware over the air.
//!
//! Each activity is a sequence of steps. A step says what is to be done next; whoever carries it
//! out reports what came of it as an event, and the event leads to the next step. The modules
//! `probe`, `wifi`, `mqtt` and `update` hold the four sequences and what is proved of them.
//! `message`, `slot` and `partitions` hold what the steps are about.

pub mod message;
pub mod mqtt;
pub mod partitions;
pub mod probe;
pub mod slot;
pub mod update;
pub mod wifi;
