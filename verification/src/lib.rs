//! Clipboard history for a panel applet: the history model with its
//! content-hash ids, the clipboard watcher's decisions, and the applet's
//! reaction to each message, each with its contract.
pub mod app;
pub mod clipboard;
pub mod history;
pub mod laws;
pub mod text;
