pub mod cli;
pub mod command;
pub mod data;
pub mod io;
pub mod text;
