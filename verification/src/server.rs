pub mod command;
pub mod index;
pub mod store;
