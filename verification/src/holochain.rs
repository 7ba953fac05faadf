//! The gateway's model of the conductor's data, and the transport traits
//! through which the upstream websockets are driven.
//!
//! The connection logic works on plain values: identifiers and hashes in
//! their canonical text form, and open connections as opaque handles. An I/O
//! runtime implements [`AdminTransport`] and [`AppTransport`] and owns the
//! actual sockets behind the handles.

use vstd::prelude::*;
use crate::config::{GrantedFunctions, SocketAddress};
use crate::error::ConductorError;

verus! {

/// The origin that the gateway will use when connecting to Holochain app interfaces.
pub const HTTP_GW_ORIGIN: &'static str = "hc-http-gw";

/// A cell: one module instance, identified by its network (DNA hash) and
/// agent key, both in canonical text form.
#[derive(Debug, Clone)]
pub struct CellId {
    /// The DNA hash in canonical text form.
    pub dna_hash: String,
    /// The agent public key in canonical text form.
    pub agent_key: String,
}

/// The mathematical value of a [`CellId`].
pub struct CellIdV {
    /// The DNA hash text.
    pub dna_hash: Seq<char>,
    /// The agent key text.
    pub agent_key: Seq<char>,
}

impl View for CellId {
    type V = CellIdV;

    open spec fn view(&self) -> CellIdV {
        CellIdV { dna_hash: self.dna_hash@, agent_key: self.agent_key@ }
    }
}

/// One cell record of an installed application: only provisioned cells carry
/// a usable cell id for the gateway.
#[derive(Debug, Clone)]
pub enum CellInfo {
    /// A provisioned cell.
    Provisioned(CellId),
    /// A cloned or stem cell, which the gateway does not use.
    Other,
}

/// The mathematical value of a [`CellInfo`].
pub enum CellInfoV {
    /// A provisioned cell.
    Provisioned(CellIdV),
    /// Any other cell record.
    Other,
}

impl View for CellInfo {
    type V = CellInfoV;

    open spec fn view(&self) -> CellInfoV {
        match self {
            CellInfo::Provisioned(c) => CellInfoV::Provisioned(c@),
            CellInfo::Other => CellInfoV::Other,
        }
    }
}

/// The descriptor of an installed application: its identifier and its cell
/// records, flattened over the roles.
#[derive(Debug, Clone)]
pub struct AppInfo {
    /// The identifier under which the application is installed.
    pub installed_app_id: String,
    /// The application's cell records.
    pub cell_info: Vec<CellInfo>,
}

/// The mathematical value of an [`AppInfo`].
pub struct AppInfoV {
    /// The application identifier.
    pub installed_app_id: Seq<char>,
    /// The cell records.
    pub cell_info: Seq<CellInfoV>,
}

impl View for AppInfo {
    type V = AppInfoV;

    open spec fn view(&self) -> AppInfoV {
        AppInfoV {
            installed_app_id: self.installed_app_id@,
            cell_info: self.cell_info@.map_values(|c: CellInfo| c@),
        }
    }
}

/// Which origins an app interface accepts.
#[derive(Debug, Clone)]
pub enum AllowedOrigins {
    /// Any origin is accepted.
    Any,
    /// Only the listed origins are accepted.
    Origins(Vec<String>),
}

impl AllowedOrigins {
    /// Whether the given origin is accepted.
    pub open spec fn allows(self, origin: Seq<char>) -> bool {
        match self {
            AllowedOrigins::Any => true,
            AllowedOrigins::Origins(os) => crate::config::views_of(os@).contains(origin),
        }
    }

    /// Whether the given origin is accepted.
    pub fn is_allowed(&self, origin: &str) -> (r: bool)
        ensures
            r == (*self).allows(origin@),
    {
        match self {
            AllowedOrigins::Any => true,
            AllowedOrigins::Origins(os) => {
                let n = os.len();
                let mut k: usize = 0;
                while k < n
                    invariant
                        *self == AllowedOrigins::Origins(*os),
                        n == os@.len(),
                        0 <= k <= n,
                        forall|j: int| 0 <= j < k ==> #[trigger] os@[j]@ != origin@,
                    decreases n - k,
                {
                    if crate::config::str_eq(os[k].as_str(), origin) {
                        proof {
                            assert(crate::config::views_of(os@)[k as int] == origin@);
                            assert(crate::config::views_of(os@).contains(origin@));
                        }
                        return true;
                    }
                    k = k + 1;
                }
                proof {
                    if crate::config::views_of(os@).contains(origin@) {
                        let j = choose|j: int|
                            0 <= j < crate::config::views_of(os@).len()
                                && crate::config::views_of(os@)[j] == origin@;
                        assert(os@[j]@ == origin@);
                    }
                }
                false
            },
        }
    }
}

/// The description of one app interface of the conductor.
#[derive(Debug, Clone)]
pub struct AppInterfaceInfo {
    /// The port the interface listens on.
    pub port: u16,
    /// The origins the interface accepts.
    pub allowed_origins: AllowedOrigins,
    /// If set, the interface only serves this application.
    pub installed_app_id: Option<String>,
}

/// A request on the administrative channel.
#[derive(Debug, Clone)]
pub enum AdminRequest {
    /// List the conductor's app interfaces.
    ListAppInterfaces,
    /// Issue a connection token for the given application.
    IssueAppAuthToken {
        /// The application the token is for.
        installed_app_id: String,
        /// Whether the token is single-use.
        single_use: bool,
    },
    /// Authorize signing credentials for a cell.
    AuthorizeSigningCredentials {
        /// The cell to authorize.
        cell_id: CellId,
        /// The functions the credentials may sign for.
        functions: GrantedFunctions,
    },
    /// Attach a new app interface and return its port.
    AttachAppInterface {
        /// The requested port; zero lets the conductor pick one.
        port: u16,
        /// The origin the interface shall accept.
        allowed_origin: String,
        /// If set, the interface only serves this application.
        installed_app_id: Option<String>,
    },
    /// List installed applications.
    ListApps {
        /// Restrict the list to running applications.
        running_only: bool,
    },
}

/// A response on the administrative channel.
#[derive(Debug, Clone)]
pub enum AdminResponse {
    /// The conductor's app interfaces.
    AppInterfaces(Vec<AppInterfaceInfo>),
    /// A connection token.
    AppAuthTokenIssued(Vec<u8>),
    /// Signing credentials, as a handle owned by the transport.
    SigningCredentialsAuthorized(u64),
    /// The port of a newly attached app interface.
    AppInterfaceAttached(u16),
    /// The installed applications.
    Apps(Vec<AppInfo>),
}

/// The administrative websocket, as the connection logic sees it: opening a
/// connection and executing one request on it. Nothing is assumed of the
/// results; the connection logic states what holds whatever comes back.
pub trait AdminTransport {
    /// Open an administrative connection; `None` when the conductor cannot
    /// be reached.
    fn connect_admin(&mut self, addr: &SocketAddress) -> Option<u64>;

    /// Execute one request on the given connection.
    fn admin_request(&mut self, conn: u64, req: &AdminRequest) -> Result<
        AdminResponse,
        ConductorError,
    >;
}

/// A per-application websocket, as the connection logic sees it.
pub trait AppTransport {
    /// Open an application connection with the given token, request timeout
    /// and origin header; `None` when the connection cannot be made.
    fn connect_app(
        &mut self,
        host: &String,
        port: u16,
        token: &Vec<u8>,
        timeout_ms: u64,
        origin: &str,
    ) -> Option<u64>;

    /// The application descriptor that the connected client cached at
    /// connection time.
    fn cached_app_info(&mut self, conn: u64) -> AppInfo;

    /// Register signing credentials for a cell with this connection's signer.
    fn add_credentials(&mut self, conn: u64, cell_id: &CellId, credentials: u64);

    /// Sign and execute one zome call on the given connection.
    fn call_zome_function(
        &mut self,
        conn: u64,
        cell_id: &CellId,
        zome_name: &String,
        fn_name: &String,
        payload: &Vec<u8>,
    ) -> Result<Vec<u8>, ConductorError>;

    /// The current clock reading, used to order connections by age.
    fn now(&mut self) -> i64;
}

} // verus!
