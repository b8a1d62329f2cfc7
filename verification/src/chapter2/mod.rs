pub mod lazy_init;
pub mod progress_reporting;
pub mod random_key;
