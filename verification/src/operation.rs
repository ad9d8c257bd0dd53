//! File operations and their control.

pub mod controller;
