pub mod catalog;
pub mod codec;
pub mod invoke;
pub mod json;
pub mod laws;
pub mod model;
pub mod server;
pub mod text;
