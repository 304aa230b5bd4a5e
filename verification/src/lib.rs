pub mod text;
pub mod error;
pub mod slug;
pub mod content;
pub mod fsplan;
pub mod store;
pub mod model;
pub mod tags;
pub mod markdown;
pub mod note;
pub mod sorting;
pub mod vault;
pub mod graph;
pub mod tree;
pub mod terminal;
pub mod tui;
pub mod desktop;
pub mod cli;
