//! Verified core of a Telegram assistant backed by an LLM.

pub mod bot;
pub mod clock;
pub mod commands;
pub mod config;
pub mod db;
pub mod handlers;
pub mod json;
pub mod knowledge;
pub mod limits;
pub mod llm;
pub mod memory;
pub mod rows;
pub mod sort;
pub mod storage;
pub mod strings;
pub mod telegram;
pub mod text;
pub mod utils;
