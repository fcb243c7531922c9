pub mod text;
pub mod models;
pub mod util;
pub mod cron;
pub mod launchd;
pub mod app;
pub mod theme;
