pub mod balance;
pub mod maths;
