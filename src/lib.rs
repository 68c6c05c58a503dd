pub mod config;
pub mod dispatcher;
pub mod message;
pub mod notification;
pub mod primitives;
pub mod processor;
pub mod rules;
pub mod util;
