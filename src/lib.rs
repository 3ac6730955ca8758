//! Anonymous identity allocation: hourly tag windows, a tag ledger with
//! per-owner retention, and a single-flight cache of delivery endpoints.

pub mod allocator;
pub mod clock;
pub mod endpoint;
pub mod error;
pub mod laws;
pub mod ledger;
pub mod message;
pub mod session;

pub use clock::{in_window_at, window_start, MAX_INSTANT, MIN_INSTANT, WINDOW_SECONDS};
pub use endpoint::{Endpoint, EndpointCache, Lookup};
pub use error::{AnonError, UserError};
pub use ledger::{Ledger, TagRecord, RETAINED_PER_OWNER, TAG_SPACE};
pub use message::{
    avatar_url, check_limits, check_message, display_name, MAX_MENTIONS, MAX_MESSAGE_BYTES,
};
pub use session::MAX_RETAGS;
