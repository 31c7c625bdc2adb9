//! Verified core of a robot-controller firmware: CAN framing and DJI motor
//! bookkeeping, a bounded debug text buffer, and the watch registry and
//! line protocol of an RTT variable-watch tool.

pub mod fixed;
pub mod watch_config;
pub mod watch_table;
pub mod watch_value;
pub mod watch_task;
pub mod debug_printer;
pub mod can_frame;
pub mod motor_dji;
pub mod bus;
pub mod motor_base;
pub mod tool;
pub mod derive_plan;
