pub mod display;
pub mod listing;
pub mod lists;
pub mod maintenance;
pub mod matcher;
pub mod parts;
pub mod paths;
pub mod query;
pub mod ranking;
pub mod search;
pub mod session;
pub mod settings;
pub mod state;
pub mod subset;
pub mod text;
