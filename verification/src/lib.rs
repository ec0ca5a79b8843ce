//! Fan control for U-NAS HS201P and HS401P machines: the controller that
//! turns CPU and disk temperatures into a fan PWM, the decisions of the
//! daemon that runs it, the reading of the kernel's temperature sensors, and
//! the command line of the tool that writes the PWM to the fan controller.
//!
//! Temperatures are integers in millidegrees Celsius throughout.
pub mod cli;
pub mod controller;
pub mod daemon;
pub mod fanctl;
pub mod number;
pub mod sensors;
pub mod text;
