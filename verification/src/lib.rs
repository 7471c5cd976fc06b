//! Verified core of a stage-based climate controller.
//!
//! A controller owns several stage sets. Each stage set watches its stages'
//! conditions, enters the first stage whose condition holds (sending that
//! stage's commands to the peripherals), stays there until the stage asks to
//! leave, and falls back to a default stage when no stage can be entered.
//!
//! The modules hold the decisions of that controller: the time window
//! condition, the commands sent to the peripherals, the plan that turns a
//! configuration into stages, the stage set's state machine and the reading
//! of the temperature sensor.
pub mod time_range;
pub mod peripheral;
pub mod controller;
pub mod config;
pub mod temperature;
pub mod startup;
pub mod status;
