//! Real-time core of a programmable analog-switch keyboard controller.
//!
//! Once per tick the firmware samples every multiplexer channel, turns the
//! noisy analog readings into debounced press/release events, feeds those
//! events through a layered key-mapping state machine, and encodes the
//! currently active keycodes into a standard USB boot-keyboard report.
//! This crate holds that pipeline: the debouncer, the layout engine, the
//! report encoder and the scheduler glue, each with a verified contract.
//! The hardware edge (timer and USB interrupts, the channel reads, the
//! bootloader jump) lives outside and hands the pipeline plain values.

pub mod config;
pub mod debounce;
pub mod layout;
pub mod report;
pub mod sched;
