//! Loop OS compartment logic: capability broker, Aura orchestrator, desktop
//! shell, root-task boot planning and the serial debug channel.

pub mod aura;
pub mod broker;
pub mod debug;
pub mod debug_log;
pub mod integration;
pub mod intent;
pub mod message;
pub mod root_task;
pub mod shell;
pub mod string;
pub mod tokens;
pub mod text;
