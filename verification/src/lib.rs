//! Verified core logic of the CGD1 alarm clock command-line tool and desktop controller.
#![allow(unused_imports)]

pub mod text;
pub mod iso_duration;
pub mod durations;
pub mod monitor_duration;
pub mod scan_duration;
pub mod config;
pub mod alarm;
pub mod alarm_table;
pub mod time_entry;
pub mod timezone;
pub mod wav;
pub mod ringtone;
pub mod address;
pub mod devices;
pub mod battery;
pub mod repl;
pub mod display;
