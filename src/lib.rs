//! Packet socket core: a time-ordered delivery queue, a link conditioner that
//! emulates loss, latency and jitter, and the queues that hand packets between
//! a transport's callbacks and an application's poll loop.

pub mod error;
pub mod config;
pub mod time_queue;
pub mod packet;
pub mod conditioner;
pub mod random;
pub mod bridge;
pub mod client;
pub mod clock;
pub mod peers;
pub mod server;

pub use client::{ClientSession, SessionState};
pub use config::{LinkConditionerConfig, ServerSocketConfig, SocketAddress, SocketSharedConfig};
pub use error::{ConfigError, SocketError};
pub use packet::Packet;
pub use server::{ConditionedPacketReceiver, LinkConditioned, PacketReceiver, PacketReceiverTrait};
pub use time_queue::TimeQueue;
