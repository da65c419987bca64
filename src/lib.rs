pub mod http;
pub mod router;
pub mod connection;
pub mod pool;
