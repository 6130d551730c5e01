pub mod compile;
pub mod decompile;
pub mod structs;
