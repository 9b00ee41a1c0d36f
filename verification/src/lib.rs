//! SmartCool: the decisions of a Linux fan-control daemon and of its
//! configuration tools, separated from sysfs, D-Bus and the terminal.
pub mod analytics;
pub mod asusd;
pub mod asusd_config;
pub mod autoconfig;
pub mod benchmark;
pub mod config;
pub mod controller;
pub mod correlation;
pub mod coupling;
pub mod course;
pub mod derivative;
pub mod detect;
pub mod display;
pub mod hwmon;
pub mod identify;
pub mod integral;
pub mod interrupt;
pub mod ipc;
pub mod names;
pub mod optimize;
pub mod pkl_format;
pub mod regression;
pub mod scalar;
pub mod steps;
pub mod stress;
pub mod sweep;
pub mod sysfs;
pub mod text;
pub mod tuning;
pub mod wide;
