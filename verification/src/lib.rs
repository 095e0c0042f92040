pub mod block;
pub mod curr_time_fetcher;
pub mod errors;
pub mod interval_index;
pub mod runner;
pub mod scheduler;
pub mod website;
pub mod website_blocker;
