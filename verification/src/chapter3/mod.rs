pub mod lazy_init;
pub mod relaxed;
