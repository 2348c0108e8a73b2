//! Registers: [`LWWRegister`] (last-writer-wins) and [`MVRegister`] (multi-value).
pub mod lww_register;
pub mod mv_register;

pub use lww_register::LWWRegister;
pub use mv_register::MVRegister;
