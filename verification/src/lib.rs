//! Verified core of a Telegram bot that collects competitive programming
//! problems from group chats.

pub mod authors;
pub mod chat;
pub mod commands;
pub mod focus;
pub mod loader;
pub mod numbers;
pub mod personal;
pub mod problem;
pub mod scanner;
pub mod sheets;
pub mod text;
