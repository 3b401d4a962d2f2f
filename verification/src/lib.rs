//! A web crawler's decision logic: link extraction from fetched pages, the
//! manager that decides which pages get fetched, the relay between the crawler
//! and the user interface, and the interface's own state.

pub mod weburl;
pub mod text;
pub mod links;
pub mod crawler;
pub mod app;
pub mod clock;
pub mod gui;
pub mod demo_graph;
pub mod benchmark;
