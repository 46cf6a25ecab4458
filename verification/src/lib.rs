//! Verified core of the LocalShare file-sharing app.

pub mod text;
pub mod strmap;
pub mod net;
pub mod common;
pub mod sessions;
pub mod chat;
pub mod localsend;
pub mod proxy;
pub mod tuic;
pub mod commands;
