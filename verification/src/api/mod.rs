pub mod device;
pub mod device_query;
pub mod reply;
pub mod room;
