//! An interpreter for the CHIP-8 virtual machine: memory, timers, keypad,
//! display and the fetch-decode-execute engine, with their behaviour stated
//! as contracts.

pub mod instr;
pub mod machine;
pub mod memory;
pub mod periph;
