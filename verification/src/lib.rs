//! UartCAT: a memory-bus protocol that walks a frame down a UART daisy chain.
//!
//! One master issues every command. Each slave of the chain receives the frame, reads or
//! writes its own memory where the frame addresses it, and forwards the frame to the next
//! slave; the last slave's output comes back to the master.
//!
//! This crate holds the protocol itself, free of any bus: the frame format ([`command`]),
//! the packed form of register values ([`pack`], [`registers`]), what a slave does with a
//! frame ([`slave`]), what the master does with requests and answers ([`master`]), and what
//! happens to a frame along a whole chain ([`chain`]).
pub mod chain;
pub mod command;
pub mod master;
pub mod pack;
pub mod registers;
pub mod slave;
