pub mod fault;
pub mod memory;
pub mod semantics;
pub mod emulator;
pub mod debugger;
pub mod acceptance;
