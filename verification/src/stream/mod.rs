pub mod error;
pub mod receive;
pub mod send;
pub mod utils;
