//! What Windows itself keeps for the program.

pub mod startup;
