//! A lightweight game-server framework: a length-prefixed binary message
//! protocol, routing of messages to actors, a session table, and a timer
//! service.
pub mod actor;
pub mod buffers;
pub mod codec;
pub mod config;
pub mod connection;
pub mod error;
pub mod ids;
pub mod message;
pub mod router;
pub mod runtime;
pub mod session;
pub mod tables;
pub mod text;
pub mod timer;

pub use actor::{ActorConfig, ActorMessage, ActorRef};
pub use config::AppConfig;
pub use error::{ShellError, ShellResult};
pub use message::{Message, MsgId, SessionId};
pub use router::Router;
pub use session::{Session, SessionManager};
pub use timer::{TimerEvent, TimerQueue};
