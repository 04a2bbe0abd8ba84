//! Client-side core of the iChen "Open Protocol": a JSON message codec with
//! per-field domain validation, entity records for controllers and job cards,
//! and the session state machine that drives the JOIN handshake, ALIVE
//! keep-alives and request/response dispatch.

pub mod codec;
pub mod controller;
pub mod error;
pub mod jobcard;
pub mod lex;
pub mod messages;
pub mod number;
pub mod session;
pub mod timestamp;
pub mod types;
pub mod validate;
pub mod wire;

pub use codec::controller_from_json;
pub use codec::controller_to_json;
pub use controller::Controller;
pub use controller::GeoLocation;
pub use controller::Operator;
pub use error::OpenProtocolError;
pub use jobcard::JobCard;
pub use messages::Filter;
pub use messages::Message;
pub use messages::MessageOptions;
pub use number::Decimal;
pub use session::MisUser;
pub use session::Session;
pub use session::SessionState;
pub use timestamp::Timestamp;
pub use types::ID;
pub use types::JobMode;
pub use types::Language;
pub use types::OpMode;
pub use wire::parse_message;
pub use wire::serialize_message;
