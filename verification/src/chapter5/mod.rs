pub mod blocking_channel;
pub mod no_allocation_channel;
pub mod one_shot_channel_checked;
pub mod simple_mutex_channel;
pub mod type_safe_channel;
pub mod unsafe_one_shot_channel;
