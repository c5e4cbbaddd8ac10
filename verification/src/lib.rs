//! Remodian: volume control of a Meridian speaker by reading its LED volume
//! display and driving its infrared remote.
pub mod calibration;
pub mod client;
pub mod control;
pub mod crops;
pub mod ir;
pub mod loops;
pub mod service;
pub mod text;
pub mod vision;
