pub mod builder;
pub mod laws;
pub mod types;

pub use builder::PayloadBuilder;
