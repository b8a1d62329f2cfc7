pub mod mutex;
pub mod mutex_optimised;
