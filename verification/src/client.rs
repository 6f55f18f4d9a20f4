pub mod cli;
