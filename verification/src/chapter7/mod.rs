pub mod ordered_lock;
