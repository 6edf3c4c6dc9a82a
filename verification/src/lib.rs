//! MQTT support for Bevy applications: bounded packet caches and MQTT topic
//! subscriptions whose filters are matched with escaped regular expressions.

pub mod cache;
pub mod routing;
pub mod session;
pub mod topic;

pub use cache::PacketCache;
pub use topic::{SubscribeTopic, SubscribeTopicError};
