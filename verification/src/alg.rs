pub mod baseline;
pub mod hybrid;
pub mod sa;
