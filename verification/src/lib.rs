//! A terminal front-end core for an external text-editing engine.
//!
//! The library covers the three subsystems that carry the front-end's logic:
//! the protocol codec and request/response bookkeeping of the transport, the
//! incremental line cache that rebuilds buffer state from diff operations,
//! and the double-buffered screen renderer that emits a minimal escape-
//! sequence diff between frames.

pub mod color;
pub mod command_line;
pub mod layout;
pub mod line_cache;
pub mod protocol;
pub mod screen;
pub mod styles;
mod term;
pub mod transport;
pub mod window;

pub use color::Color;
pub use command_line::CommandLine;
pub use layout::{Layout, Rect};
pub use line_cache::{Line, LineCache, StyleSpan};
pub use screen::Coordinate;
pub use protocol::{CoreError, EditMethod, Message, Notification, Request, Response, Update, Op, OpKind, ViewId};
pub use styles::{Style, Styles};
pub use transport::{PendingRequests, RouteOutcome};
pub use window::Window;
