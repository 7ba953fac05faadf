//! An HTTP-to-WebSocket gateway core for calling functions hosted by a
//! Holochain conductor.
//!
//! The crate holds the gateway's logic: configuration parsing and allow-list
//! policy, request validation, payload transcoding between base64-encoded JSON
//! and the conductor's wire bytes, application selection, and the connection
//! management for the administrative channel and the per-application
//! connection pool. Network transports are abstracted behind traits so that
//! the decision logic is independent of any particular I/O runtime.

use vstd::prelude::*;

pub mod admin_conn;
pub mod app_conn_pool;
pub mod app_selection;
pub mod config;
pub mod error;
pub mod holochain;
pub mod transcode;
pub mod zome_call;

pub use admin_conn::AdminConn;
pub use app_conn_pool::{AppConnPool, AppWebsocketWithState};
pub use app_selection::{try_get_valid_app, AppSelectionError};
pub use config::{
    AllowedAppIds, AllowedFns, ConfigParseError, ConfigParseResult, Configuration,
    GrantedFunctions, SocketAddress, ZomeFn,
};
pub use error::{ConductorError, ErrorResponse, HcHttpGatewayError, HcHttpGatewayResult};
pub use holochain::{
    AdminRequest, AdminResponse, AdminTransport, AppInfo, AppInterfaceInfo, AppTransport,
    AllowedOrigins, CellId, CellInfo, HTTP_GW_ORIGIN,
};
pub use transcode::{base64_json_to_hsb, calculate_base64_decoded_size, hsb_to_json};
pub use zome_call::{zome_call, AppState, PayloadQuery, ZomeCallParams};

verus! {

/// Answer a health probe.
pub fn health_check() -> (r: &'static str)
    ensures
        r@ == "Ok"@,
{
    "Ok"
}

} // verus!
