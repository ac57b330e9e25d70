pub mod alu;
pub mod connect4;
pub mod test_driver;
pub mod text;
pub mod vm;
