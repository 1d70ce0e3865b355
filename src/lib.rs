pub mod app;
pub mod crypto_utils;
pub mod error;
pub mod message_bus;
pub mod secret;
pub mod store;
pub mod session;
pub mod password_list;
