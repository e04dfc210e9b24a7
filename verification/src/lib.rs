pub mod actions;
pub mod app;
pub mod detail;
pub mod docker;
pub mod exec;
pub mod feed;
pub mod files;
pub mod inspect;
pub mod keys;
pub mod launch;
pub mod mock;
pub mod model;
pub mod ops;
pub mod order;
pub mod screen;
pub mod search;
pub mod text;
pub mod theme;
pub mod tree;
pub mod util;
