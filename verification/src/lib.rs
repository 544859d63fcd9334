//! Client-side core for the Sonoff Mini R3 local HTTP API.
//!
//! The device exposes a small JSON API: every call is a `POST` to
//! `http://{host}:{port}/zeroconf/{path}` and every response is an envelope
//! `{"data": ..., "error": N}`.  This crate holds the request/response
//! mapping layer: building the exact JSON payloads and URLs the device
//! expects, parsing its response bodies character by character, and
//! interpreting the envelopes into domain values or a typed [`Error`].
//! The HTTP transport is a collaborator that lives outside this crate.

pub mod error;
pub mod models;
pub mod positions;
pub mod requests;
pub mod text;
pub mod wire;

pub use error::Error;
pub use models::EmptyResponse;
pub use models::Info;
pub use models::InfoData;
pub use models::InfoResponse;
pub use models::Startup;
pub use models::Switch;
pub use positions::StartupPosition;
pub use positions::SwitchPosition;
pub use requests::StartupSetting;
pub use requests::StartupsRequest;
pub use requests::SwitchSetting;
pub use requests::SwitchesRequest;
pub use requests::build_info_request;
pub use requests::build_startup_request;
pub use requests::build_switch_request;
pub use requests::request_url;
pub use wire::parse_empty_response;
pub use wire::parse_info_response;
