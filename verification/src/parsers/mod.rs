pub mod earn;
pub mod save;
pub mod sheet;
pub mod spend;
pub mod utils;
