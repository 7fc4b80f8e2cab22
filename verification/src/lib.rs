//! Lifecycle orchestration for composable services: units of work that can be
//! started and stopped, one by one or as an ordered group.

pub mod dispatch;
pub mod manager;
pub mod nesting;
pub mod service;
pub mod status;

pub use manager::ServiceManager;
pub use service::Service;
pub use status::ServiceStatus;
pub use status::ServiceStatusFlag;
