pub mod tools;
pub mod ui;
