//! Verified core of the ESP32 hardware monitor: the serial line protocol,
//! the temperature report parser and sampling schedule, the ranking of serial
//! ports, the usage figures, and the names, arguments and messages that the
//! Windows installer works with.
pub mod agent;
pub mod config;
pub mod fields;
pub mod install;
pub mod metrics;
pub mod paths;
pub mod serial_link;
pub mod temperature;
pub mod text;
pub mod win_util;
