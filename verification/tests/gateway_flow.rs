//! End-to-end tests of the gateway logic against a scripted conductor: the
//! administrative retry, application selection, the connection pool, and the
//! request pipeline.

use base64::prelude::BASE64_URL_SAFE;
use base64::Engine;
use hc_http_gw::holochain::{AdminTransport, AppTransport};
use hc_http_gw::zome_call::parse_zome_call_params;
use hc_http_gw::{
    try_get_valid_app, zome_call, AdminConn, AdminRequest, AdminResponse, AllowedAppIds,
    AllowedFns, AllowedOrigins, AppConnPool, AppInfo, AppInterfaceInfo, AppSelectionError,
    AppState, CellId, CellInfo, ConductorError, Configuration, HcHttpGatewayError, PayloadQuery,
    SocketAddress, ZomeFn,
};
use holochain_zome_types::prelude::ExternIO;

/// The canonical text form of the DNA hash whose 32 payload bytes are `[1; 32]`.
const DNA_HASH: &str = "uhC0kAQEBAQEBAQEBAQEBAQEBAQEBAQEBAQEBAQEBAQEBAQF-z86-";

/// A scripted conductor: answers administrative requests from fixed data and
/// zome calls from a queue of canned responses.
struct FakeConductor {
    reachable: bool,
    apps: Vec<AppInfo>,
    interfaces: Vec<AppInterfaceInfo>,
    freeze_clock: bool,
    clock: i64,
    admin_connects: usize,
    admin_requests: usize,
    app_connects: usize,
    zome_calls: usize,
    zome_responses: Vec<Result<Vec<u8>, ConductorError>>,
}

impl FakeConductor {
    fn new(apps: Vec<AppInfo>) -> Self {
        FakeConductor {
            reachable: true,
            apps,
            interfaces: Vec::new(),
            freeze_clock: false,
            clock: 0,
            admin_connects: 0,
            admin_requests: 0,
            app_connects: 0,
            zome_calls: 0,
            zome_responses: Vec::new(),
        }
    }

    fn unreachable(apps: Vec<AppInfo>) -> Self {
        let mut fake = Self::new(apps);
        fake.reachable = false;
        fake
    }

    fn respond_with(mut self, responses: Vec<Result<Vec<u8>, ConductorError>>) -> Self {
        self.zome_responses = responses;
        self
    }
}

impl AdminTransport for FakeConductor {
    fn connect_admin(&mut self, _addr: &SocketAddress) -> Option<u64> {
        self.admin_connects += 1;
        if self.reachable {
            Some(1)
        } else {
            None
        }
    }

    fn admin_request(
        &mut self,
        _conn: u64,
        req: &AdminRequest,
    ) -> Result<AdminResponse, ConductorError> {
        self.admin_requests += 1;
        if !self.reachable {
            return Err(ConductorError::Websocket("connection closed".to_string()));
        }
        match req {
            AdminRequest::ListAppInterfaces => {
                Ok(AdminResponse::AppInterfaces(self.interfaces.clone()))
            }
            AdminRequest::IssueAppAuthToken { .. } => {
                Ok(AdminResponse::AppAuthTokenIssued(vec![7u8; 4]))
            }
            AdminRequest::AuthorizeSigningCredentials { .. } => {
                Ok(AdminResponse::SigningCredentialsAuthorized(11))
            }
            AdminRequest::AttachAppInterface { .. } => {
                Ok(AdminResponse::AppInterfaceAttached(40000))
            }
            AdminRequest::ListApps { .. } => Ok(AdminResponse::Apps(self.apps.clone())),
        }
    }
}

impl AppTransport for FakeConductor {
    fn connect_app(
        &mut self,
        _host: &String,
        _port: u16,
        _token: &Vec<u8>,
        _timeout_ms: u64,
        _origin: &str,
    ) -> Option<u64> {
        if self.reachable {
            self.app_connects += 1;
            Some(100 + self.app_connects as u64)
        } else {
            None
        }
    }

    fn cached_app_info(&mut self, _conn: u64) -> AppInfo {
        self.apps[0].clone()
    }

    fn add_credentials(&mut self, _conn: u64, _cell_id: &CellId, _credentials: u64) {}

    fn call_zome_function(
        &mut self,
        _conn: u64,
        _cell_id: &CellId,
        _zome_name: &String,
        _fn_name: &String,
        _payload: &Vec<u8>,
    ) -> Result<Vec<u8>, ConductorError> {
        self.zome_calls += 1;
        if self.zome_responses.is_empty() {
            Err(ConductorError::Websocket("no response scripted".to_string()))
        } else {
            self.zome_responses.remove(0)
        }
    }

    fn now(&mut self) -> i64 {
        if !self.freeze_clock {
            self.clock += 1;
        }
        self.clock
    }
}

fn new_test_app_info(app_id: &str, dna_hash: &str) -> AppInfo {
    AppInfo {
        installed_app_id: app_id.to_string(),
        cell_info: vec![CellInfo::Provisioned(CellId {
            dna_hash: dna_hash.to_string(),
            agent_key: "uhCAk-agent".to_string(),
        })],
    }
}

fn local_addr() -> SocketAddress {
    SocketAddress {
        host: "127.0.0.1".to_string(),
        port: 8888,
    }
}

fn new_admin_conn() -> AdminConn {
    AdminConn::new(local_addr())
}

/// A configuration that allows `coordinator` to call `zome_name/fn_name`,
/// with a payload limit of 1024 bytes.
fn test_config() -> Configuration {
    let restricted = AllowedFns::Restricted(vec![ZomeFn {
        zome_name: "zome_name".to_string(),
        fn_name: "fn_name".to_string(),
    }]);
    Configuration::try_new(
        local_addr(),
        "1024",
        "coordinator",
        vec![("coordinator".to_string(), restricted)],
        "",
        "",
    )
    .unwrap()
}

fn test_state(config: Configuration) -> AppState {
    AppState::new(config)
}

fn encoded_return_value() -> Vec<u8> {
    ExternIO::encode(serde_json::Value::String("return_value".to_string()))
        .unwrap()
        .into_vec()
}

fn call_params(dna: &str, coord: &str, zome: &str, f: &str) -> hc_http_gw::ZomeCallParams {
    parse_zome_call_params(
        dna.to_string(),
        coord.to_string(),
        zome.to_string(),
        f.to_string(),
    )
    .unwrap()
}

fn status_and_body(e: HcHttpGatewayError) -> (u16, String) {
    e.into_status_code_and_body()
}

// ---------------------------------------------------------------------------
// Health
// ---------------------------------------------------------------------------

#[test]
fn health_check_works() {
    assert_eq!(hc_http_gw::health_check(), "Ok");
}

// ---------------------------------------------------------------------------
// Path validation
// ---------------------------------------------------------------------------

#[test]
fn valid_dna_hash_is_accepted() {
    let params = parse_zome_call_params(
        DNA_HASH.to_string(),
        "coordinator".to_string(),
        "zome_name".to_string(),
        "fn_name".to_string(),
    );
    assert!(params.is_ok());
}

#[test]
fn invalid_dna_hash_is_rejected() {
    let result = parse_zome_call_params(
        "thisaintnodnahash".to_string(),
        "coordinator".to_string(),
        "zome_name".to_string(),
        "fn_name".to_string(),
    );
    let (status, body) = status_and_body(result.unwrap_err());
    assert_eq!(status, 400);
    assert_eq!(body, "Request is malformed: Invalid DNA hash");
}

#[test]
fn hash_with_bad_checksum_is_rejected() {
    // Same shape as a canonical hash, but the location bytes do not match.
    let result = parse_zome_call_params(
        "uhC0kAQEBAQEBAQEBAQEBAQEBAQEBAQEBAQEBAQEBAQEBAQEAAAAA".to_string(),
        "coordinator".to_string(),
        "zome_name".to_string(),
        "fn_name".to_string(),
    );
    assert!(result.is_err());
}

#[test]
fn coordinator_identifier_with_excess_length_is_rejected() {
    let coordinator = "12345678901234567890123456789012345678901234567890123456789012345678901234567890123456789012345678901";
    let result = parse_zome_call_params(
        DNA_HASH.to_string(),
        coordinator.to_string(),
        "zome_name".to_string(),
        "fn_name".to_string(),
    );
    let (status, body) = status_and_body(result.unwrap_err());
    assert_eq!(status, 400);
    assert_eq!(
        body,
        format!("Request is malformed: Identifier {coordinator} longer than 100 characters")
    );
}

#[test]
fn zome_name_with_excess_length_is_rejected() {
    let zome_name = "12345678901234567890123456789012345678901234567890123456789012345678901234567890123456789012345678901";
    let result = parse_zome_call_params(
        DNA_HASH.to_string(),
        "coordinator".to_string(),
        zome_name.to_string(),
        "fn_name".to_string(),
    );
    let (status, body) = status_and_body(result.unwrap_err());
    assert_eq!(status, 400);
    assert_eq!(
        body,
        format!("Request is malformed: Identifier {zome_name} longer than 100 characters")
    );
}

#[test]
fn function_name_with_excess_length_is_rejected() {
    let fn_name = "12345678901234567890123456789012345678901234567890123456789012345678901234567890123456789012345678901";
    let result = parse_zome_call_params(
        DNA_HASH.to_string(),
        "coordinator".to_string(),
        "zome_name".to_string(),
        fn_name.to_string(),
    );
    let (status, body) = status_and_body(result.unwrap_err());
    assert_eq!(status, 400);
    assert_eq!(
        body,
        format!("Request is malformed: Identifier {fn_name} longer than 100 characters")
    );
}

#[test]
fn identifier_at_the_bound_is_accepted() {
    let coordinator = "1234567890123456789012345678901234567890123456789012345678901234567890123456789012345678901234567890";
    assert_eq!(coordinator.len(), 100);
    let result = parse_zome_call_params(
        DNA_HASH.to_string(),
        coordinator.to_string(),
        "zome_name".to_string(),
        "fn_name".to_string(),
    );
    assert!(result.is_ok());
}

#[test]
fn validate_dna_hash_accepts_canonical_text() {
    assert!(hc_http_gw::zome_call::validate_dna_hash(DNA_HASH));
}

#[test]
fn validate_dna_hash_rejects_invalid_text() {
    assert!(!hc_http_gw::zome_call::validate_dna_hash(""));
    assert!(!hc_http_gw::zome_call::validate_dna_hash("invalid-hash"));
    assert!(!hc_http_gw::zome_call::validate_dna_hash("uhC0k\u{e9}"));
}

// ---------------------------------------------------------------------------
// Request pipeline
// ---------------------------------------------------------------------------

#[test]
fn happy_zome_call() {
    let mut fake = FakeConductor::new(vec![new_test_app_info("coordinator", DNA_HASH)])
        .respond_with(vec![Ok(encoded_return_value())]);
    let mut state = test_state(test_config());

    let params = call_params(DNA_HASH, "coordinator", "zome_name", "fn_name");
    let body = zome_call(params, PayloadQuery { payload: None }, &mut state, &mut fake).unwrap();
    assert_eq!(body, "\"return_value\"");
}

#[test]
fn unauthorized_function_name_is_rejected() {
    let mut fake = FakeConductor::new(vec![new_test_app_info("coordinator", DNA_HASH)]);
    let mut state = test_state(test_config());

    let params = call_params(DNA_HASH, "coordinator", "zome_name", "unauthorized_fn");
    let err = zome_call(params, PayloadQuery { payload: None }, &mut state, &mut fake)
        .unwrap_err();
    let (status, body) = status_and_body(err);
    assert_eq!(status, 403);
    assert_eq!(
        body,
        "Function unauthorized_fn in zome zome_name in app coordinator is not allowed"
    );
}

#[test]
fn payload_with_excess_length_is_rejected() {
    let config = Configuration::try_new(
        local_addr(),
        "10",
        "",
        vec![("coordinator".to_string(), AllowedFns::All)],
        "",
        "",
    )
    .unwrap();
    let mut fake = FakeConductor::new(vec![new_test_app_info("coordinator", DNA_HASH)]);
    let mut state = test_state(config);

    let payload = BASE64_URL_SAFE.encode(vec![1u8; 11]);
    let params = call_params(DNA_HASH, "coordinator", "zome_name", "fn_name");
    let err = zome_call(
        params,
        PayloadQuery {
            payload: Some(payload),
        },
        &mut state,
        &mut fake,
    )
    .unwrap_err();
    let (status, body) = status_and_body(err);
    assert_eq!(status, 400);
    assert_eq!(body, "Request is malformed: Payload exceeds 10 bytes");
}

#[test]
fn payload_with_invalid_base64_encoding_is_rejected() {
    let mut fake = FakeConductor::new(vec![new_test_app_info("coordinator", DNA_HASH)]);
    let mut state = test_state(test_config());

    let params = call_params(DNA_HASH, "coordinator", "zome_name", "fn_name");
    let err = zome_call(
        params,
        PayloadQuery {
            payload: Some("$%&#".to_string()),
        },
        &mut state,
        &mut fake,
    )
    .unwrap_err();
    let (status, body) = status_and_body(err);
    assert_eq!(status, 400);
    assert_eq!(body, "Request is malformed: Invalid base64 encoding");
}

#[test]
fn payload_with_invalid_json_is_rejected() {
    let mut fake = FakeConductor::new(vec![new_test_app_info("coordinator", DNA_HASH)]);
    let mut state = test_state(test_config());

    let payload = BASE64_URL_SAFE.encode("{invalid}");
    let params = call_params(DNA_HASH, "coordinator", "zome_name", "fn_name");
    let err = zome_call(
        params,
        PayloadQuery {
            payload: Some(payload),
        },
        &mut state,
        &mut fake,
    )
    .unwrap_err();
    let (status, body) = status_and_body(err);
    assert_eq!(status, 400);
    assert_eq!(body, "Request is malformed: Invalid JSON value");
}

#[test]
fn upstream_unavailable_after_retries() {
    let mut fake = FakeConductor::unreachable(vec![new_test_app_info("coordinator", DNA_HASH)]);
    // The application is already known, so selection succeeds from the cache
    // and the failure happens when connecting.
    let mut state = test_state(test_config());
    state.app_info_cache = vec![new_test_app_info("coordinator", DNA_HASH)];

    let params = call_params(DNA_HASH, "coordinator", "zome_name", "fn_name");
    let err = zome_call(params, PayloadQuery { payload: None }, &mut state, &mut fake)
        .unwrap_err();
    let (status, body) = status_and_body(err);
    assert_eq!(status, 502);
    assert_eq!(body, "Could not connect to Holochain");
    assert!(fake.admin_connects >= 1);
}

#[test]
fn ribosome_errors_are_returned() {
    let mut fake = FakeConductor::new(vec![new_test_app_info("coordinator", DNA_HASH)])
        .respond_with(vec![Err(ConductorError::RibosomeError(
            "Guest(\"could not find record xyz\")".to_string(),
        ))]);
    let mut state = test_state(test_config());

    let params = call_params(DNA_HASH, "coordinator", "zome_name", "fn_name");
    let err = zome_call(params, PayloadQuery { payload: None }, &mut state, &mut fake)
        .unwrap_err();
    let (status, body) = status_and_body(err);
    assert_eq!(status, 500);
    assert_eq!(body, "Guest(\"could not find record xyz\")");
}

#[test]
fn other_conductor_errors_are_internal() {
    let mut fake = FakeConductor::new(vec![new_test_app_info("coordinator", DNA_HASH)])
        .respond_with(vec![Err(ConductorError::Other("nonce_kaputt".to_string()))]);
    let mut state = test_state(test_config());

    let params = call_params(DNA_HASH, "coordinator", "zome_name", "fn_name");
    let err = zome_call(params, PayloadQuery { payload: None }, &mut state, &mut fake)
        .unwrap_err();
    let (status, body) = status_and_body(err);
    assert_eq!(status, 500);
    assert_eq!(body, "Something went wrong");
}

// ---------------------------------------------------------------------------
// Application selection
// ---------------------------------------------------------------------------

#[test]
fn returns_error_if_app_not_installed() {
    let mut fake = FakeConductor::new(Vec::new());
    let mut cache: Vec<AppInfo> = Vec::new();
    let allowed = AllowedAppIds::from_str("").unwrap();
    let mut admin = new_admin_conn();

    let result = try_get_valid_app(
        &DNA_HASH.to_string(),
        &"app_1".to_string(),
        &mut cache,
        &allowed,
        &mut admin,
        &mut fake,
    );
    assert_eq!(result.unwrap_err(), AppSelectionError::NotInstalled);
}

#[test]
fn returns_error_if_app_installed_but_not_allowed() {
    let mut fake = FakeConductor::new(Vec::new());
    let mut cache = vec![new_test_app_info("some_app_id", DNA_HASH)];
    let allowed = AllowedAppIds::from_str("other_app_id").unwrap();
    let mut admin = new_admin_conn();

    let result = try_get_valid_app(
        &DNA_HASH.to_string(),
        &"some_app_id".to_string(),
        &mut cache,
        &allowed,
        &mut admin,
        &mut fake,
    );
    assert_eq!(result.unwrap_err(), AppSelectionError::NotAllowed);
}

#[test]
fn returns_ok_if_app_is_installed_and_allowed() {
    let mut fake = FakeConductor::new(Vec::new());
    let mut cache = vec![new_test_app_info("some_app_id", DNA_HASH)];
    let allowed = AllowedAppIds::from_str("some_app_id").unwrap();
    let mut admin = new_admin_conn();

    let result = try_get_valid_app(
        &DNA_HASH.to_string(),
        &"some_app_id".to_string(),
        &mut cache,
        &allowed,
        &mut admin,
        &mut fake,
    )
    .unwrap();
    assert_eq!(result.installed_app_id, "some_app_id");
}

#[test]
fn checks_app_list_from_websocket_if_not_in_installed_apps() {
    let mut fake = FakeConductor::new(vec![new_test_app_info("some_app_id", DNA_HASH)]);
    let mut cache: Vec<AppInfo> = Vec::new();
    let allowed = AllowedAppIds::from_str("some_app_id").unwrap();
    let mut admin = new_admin_conn();

    let result = try_get_valid_app(
        &DNA_HASH.to_string(),
        &"some_app_id".to_string(),
        &mut cache,
        &allowed,
        &mut admin,
        &mut fake,
    )
    .unwrap();
    assert_eq!(result.installed_app_id, "some_app_id");
}

#[test]
fn returns_error_if_multiple_apps_match() {
    let apps = vec![
        new_test_app_info("app_1", DNA_HASH),
        new_test_app_info("app_1", DNA_HASH),
    ];
    let mut fake = FakeConductor::new(apps.clone());
    let mut cache = apps;
    let allowed = AllowedAppIds::from_str("app_1,app_2").unwrap();
    let mut admin = new_admin_conn();

    let result = try_get_valid_app(
        &DNA_HASH.to_string(),
        &"app_1".to_string(),
        &mut cache,
        &allowed,
        &mut admin,
        &mut fake,
    );
    assert_eq!(result.unwrap_err(), AppSelectionError::MultipleMatching);
    // An ambiguous cache is reported as it is; a refresh happens only on a
    // miss.
    assert_eq!(fake.admin_requests, 0);
    assert_eq!(cache.len(), 2);
}

#[test]
fn returns_error_if_coordinator_identifier_does_not_match_app_id() {
    let apps = vec![new_test_app_info("app_2", DNA_HASH)];
    let mut fake = FakeConductor::new(apps.clone());
    let mut cache = apps;
    let allowed = AllowedAppIds::from_str("app_2").unwrap();
    let mut admin = new_admin_conn();

    let result = try_get_valid_app(
        &DNA_HASH.to_string(),
        &"app_1".to_string(),
        &mut cache,
        &allowed,
        &mut admin,
        &mut fake,
    );
    assert_eq!(result.unwrap_err(), AppSelectionError::NotInstalled);
}

#[test]
fn returns_error_if_matching_coordinator_identifier_not_in_allowed_list() {
    let mut fake = FakeConductor::new(Vec::new());
    let mut cache = vec![
        new_test_app_info("app_1", DNA_HASH),
        new_test_app_info("app_2", DNA_HASH),
    ];
    let allowed = AllowedAppIds::from_str("app_2").unwrap();
    let mut admin = new_admin_conn();

    let result = try_get_valid_app(
        &DNA_HASH.to_string(),
        &"app_1".to_string(),
        &mut cache,
        &allowed,
        &mut admin,
        &mut fake,
    );
    assert_eq!(result.unwrap_err(), AppSelectionError::NotAllowed);
}

#[test]
fn updates_installed_apps_list_if_not_in_initial_list() {
    let apps = vec![new_test_app_info("app_1", DNA_HASH)];
    let mut fake = FakeConductor::new(apps.clone());
    let mut cache: Vec<AppInfo> = Vec::new();
    let allowed = AllowedAppIds::from_str("app_1").unwrap();
    let mut admin = new_admin_conn();

    try_get_valid_app(
        &DNA_HASH.to_string(),
        &"app_1".to_string(),
        &mut cache,
        &allowed,
        &mut admin,
        &mut fake,
    )
    .unwrap();

    assert_eq!(cache.len(), 1);
    assert_eq!(cache[0].installed_app_id, "app_1");
}

#[test]
fn installed_apps_results_are_cached_and_reused() {
    let apps = vec![new_test_app_info("app_1", DNA_HASH)];
    let mut fake = FakeConductor::new(apps.clone());
    let mut cache: Vec<AppInfo> = Vec::new();
    let allowed = AllowedAppIds::from_str("app_1").unwrap();
    let mut admin = new_admin_conn();

    // The cache is empty, so a request goes to the admin websocket.
    try_get_valid_app(
        &DNA_HASH.to_string(),
        &"app_1".to_string(),
        &mut cache,
        &allowed,
        &mut admin,
        &mut fake,
    )
    .unwrap();
    let requests_after_first = fake.admin_requests;

    // This time the cache is used and no new request is made.
    try_get_valid_app(
        &DNA_HASH.to_string(),
        &"app_1".to_string(),
        &mut cache,
        &allowed,
        &mut admin,
        &mut fake,
    )
    .unwrap();
    assert_eq!(fake.admin_requests, requests_after_first);
}

// ---------------------------------------------------------------------------
// Administrative retry
// ---------------------------------------------------------------------------

/// A transport whose connections always open but whose every request fails
/// at the transport layer.
struct AlwaysDisconnects {
    requests: usize,
    connects: usize,
}

impl AdminTransport for AlwaysDisconnects {
    fn connect_admin(&mut self, _addr: &SocketAddress) -> Option<u64> {
        self.connects += 1;
        Some(1)
    }
    fn admin_request(
        &mut self,
        _conn: u64,
        _req: &AdminRequest,
    ) -> Result<AdminResponse, ConductorError> {
        self.requests += 1;
        Err(ConductorError::Websocket("gone".to_string()))
    }
}

/// A transport whose every request fails with a protocol-level error.
struct ProtocolFails {
    requests: usize,
    connects: usize,
}

impl AdminTransport for ProtocolFails {
    fn connect_admin(&mut self, _addr: &SocketAddress) -> Option<u64> {
        self.connects += 1;
        Some(1)
    }
    fn admin_request(
        &mut self,
        _conn: u64,
        _req: &AdminRequest,
    ) -> Result<AdminResponse, ConductorError> {
        self.requests += 1;
        Err(ConductorError::Other("bad request".to_string()))
    }
}

#[test]
fn admin_call_reconnects_at_most_once() {
    let mut t = AlwaysDisconnects {
        requests: 0,
        connects: 0,
    };
    let mut admin = new_admin_conn();

    let result = admin.call(&mut t, &AdminRequest::ListAppInterfaces);
    assert!(matches!(
        result,
        Err(HcHttpGatewayError::UpstreamUnavailable)
    ));
    // Two execution attempts: the first one, and one after the single
    // permitted reconnect.
    assert_eq!(t.requests, 2);
}

#[test]
fn admin_protocol_errors_do_not_reconnect() {
    let mut t = ProtocolFails {
        requests: 0,
        connects: 0,
    };
    let mut admin = new_admin_conn();

    let result = admin.call(&mut t, &AdminRequest::ListAppInterfaces);
    assert!(matches!(
        result,
        Err(HcHttpGatewayError::HolochainError(ConductorError::Other(_)))
    ));
    assert_eq!(t.requests, 1);
    assert_eq!(t.connects, 1);
}

// ---------------------------------------------------------------------------
// Connection pool
// ---------------------------------------------------------------------------

fn pool_config(max_connections: &str) -> Configuration {
    Configuration::try_new(
        local_addr(),
        "",
        "",
        vec![
            ("app_1".to_string(), AllowedFns::All),
            ("app_2".to_string(), AllowedFns::All),
            ("app_3".to_string(), AllowedFns::All),
            ("coordinator".to_string(), AllowedFns::All),
        ],
        max_connections,
        "",
    )
    .unwrap()
}

#[test]
fn reuse_connection() {
    let mut fake = FakeConductor::new(vec![new_test_app_info("app_1", DNA_HASH)]);
    let mut pool = AppConnPool::new(pool_config(""));
    let mut admin = new_admin_conn();

    let first = pool
        .get_or_connect_app_client(&mut admin, &mut fake, &"app_1".to_string())
        .unwrap();
    let second = pool
        .get_or_connect_app_client(&mut admin, &mut fake, &"app_1".to_string())
        .unwrap();
    assert_eq!(first, second);
    assert_eq!(fake.app_connects, 1);
}

#[test]
fn close_old_connections_on_limit() {
    let mut fake = FakeConductor::new(vec![new_test_app_info("app_1", DNA_HASH)]);
    let mut pool = AppConnPool::new(pool_config("2"));
    let mut admin = new_admin_conn();

    // Open connections for three applications, oldest first.
    pool.get_or_connect_app_client(&mut admin, &mut fake, &"app_2".to_string())
        .unwrap();
    pool.get_or_connect_app_client(&mut admin, &mut fake, &"app_1".to_string())
        .unwrap();
    pool.get_or_connect_app_client(&mut admin, &mut fake, &"app_3".to_string())
        .unwrap();

    // The pool is bounded by two connections, and the oldest one was evicted.
    let ids: Vec<String> = pool.app_clients.iter().map(|e| e.0.clone()).collect();
    assert_eq!(ids.len(), 2);
    assert!(ids.contains(&"app_1".to_string()));
    assert!(ids.contains(&"app_3".to_string()));
    assert!(!ids.contains(&"app_2".to_string()));
}

#[test]
fn removing_a_client_leaves_the_others_and_ignores_absent_ids() {
    let mut fake = FakeConductor::new(vec![new_test_app_info("app_1", DNA_HASH)]);
    let mut pool = AppConnPool::new(pool_config(""));
    let mut admin = new_admin_conn();

    pool.get_or_connect_app_client(&mut admin, &mut fake, &"app_1".to_string())
        .unwrap();
    pool.get_or_connect_app_client(&mut admin, &mut fake, &"app_2".to_string())
        .unwrap();

    // Removing an id that is not pooled changes nothing.
    pool.remove_app_client(&"app_3".to_string());
    assert_eq!(pool.app_clients.len(), 2);

    // Removing one entry leaves the other exactly as it was.
    pool.remove_app_client(&"app_1".to_string());
    let ids: Vec<String> = pool.app_clients.iter().map(|e| e.0.clone()).collect();
    assert_eq!(ids, vec!["app_2".to_string()]);
}

#[test]
fn eviction_breaks_age_ties_by_identifier() {
    let mut fake = FakeConductor::new(vec![new_test_app_info("app_1", DNA_HASH)]);
    fake.freeze_clock = true;
    let mut pool = AppConnPool::new(pool_config("1"));
    let mut admin = new_admin_conn();

    // Both entries get the same opening time; the lexicographically smaller
    // identifier counts as older and is evicted.
    pool.get_or_connect_app_client(&mut admin, &mut fake, &"app_2".to_string())
        .unwrap();
    pool.get_or_connect_app_client(&mut admin, &mut fake, &"app_1".to_string())
        .unwrap();

    let ids: Vec<String> = pool.app_clients.iter().map(|e| e.0.clone()).collect();
    assert_eq!(ids, vec!["app_2".to_string()]);
}

#[test]
fn reconnect_on_failed_websocket() {
    let mut fake = FakeConductor::new(vec![new_test_app_info("coordinator", DNA_HASH)])
        .respond_with(vec![
            Err(ConductorError::Websocket("gone".to_string())),
            Ok(encoded_return_value()),
        ]);
    let mut pool = AppConnPool::new(pool_config(""));
    let mut admin = new_admin_conn();

    let cell = CellId {
        dna_hash: DNA_HASH.to_string(),
        agent_key: "uhCAk-agent".to_string(),
    };
    let response = pool
        .call(
            &mut admin,
            &mut fake,
            &"coordinator".to_string(),
            &cell,
            &"zome_name".to_string(),
            &"fn_name".to_string(),
            &Vec::new(),
        )
        .unwrap();
    assert_eq!(response, encoded_return_value());
    assert_eq!(fake.zome_calls, 2);
    assert_eq!(fake.app_connects, 2);
}

#[test]
fn does_not_reconnect_on_non_websocket_error() {
    let mut fake = FakeConductor::new(vec![new_test_app_info("coordinator", DNA_HASH)])
        .respond_with(vec![Err(ConductorError::Other("app error".to_string()))]);
    let mut pool = AppConnPool::new(pool_config(""));
    let mut admin = new_admin_conn();

    let cell = CellId {
        dna_hash: DNA_HASH.to_string(),
        agent_key: "uhCAk-agent".to_string(),
    };
    let result = pool.call(
        &mut admin,
        &mut fake,
        &"coordinator".to_string(),
        &cell,
        &"zome_name".to_string(),
        &"fn_name".to_string(),
        &Vec::new(),
    );
    assert!(matches!(
        result,
        Err(HcHttpGatewayError::HolochainError(ConductorError::Other(_)))
    ));
    assert_eq!(fake.zome_calls, 1);
}

#[test]
fn pool_gives_up_after_three_websocket_failures() {
    let mut fake = FakeConductor::new(vec![new_test_app_info("coordinator", DNA_HASH)])
        .respond_with(vec![
            Err(ConductorError::Websocket("gone".to_string())),
            Err(ConductorError::Websocket("gone".to_string())),
            Err(ConductorError::Websocket("gone".to_string())),
        ]);
    let mut pool = AppConnPool::new(pool_config(""));
    let mut admin = new_admin_conn();

    let cell = CellId {
        dna_hash: DNA_HASH.to_string(),
        agent_key: "uhCAk-agent".to_string(),
    };
    let result = pool.call(
        &mut admin,
        &mut fake,
        &"coordinator".to_string(),
        &cell,
        &"zome_name".to_string(),
        &"fn_name".to_string(),
        &Vec::new(),
    );
    assert!(matches!(
        result,
        Err(HcHttpGatewayError::UpstreamUnavailable)
    ));
    assert_eq!(fake.zome_calls, 3);
}

#[test]
fn attach_app_interface_when_none_matches() {
    // An interface restricted to another app does not qualify; the pool asks
    // for a new one.
    let mut fake = FakeConductor::new(vec![new_test_app_info("app_1", DNA_HASH)]);
    fake.interfaces = vec![AppInterfaceInfo {
        port: 30000,
        allowed_origins: AllowedOrigins::Origins(vec!["hc-http-gw".to_string()]),
        installed_app_id: Some("other_app".to_string()),
    }];
    let mut pool = AppConnPool::new(pool_config(""));
    let mut admin = new_admin_conn();

    pool.get_or_connect_app_client(&mut admin, &mut fake, &"app_1".to_string())
        .unwrap();
    assert_eq!(pool.cached_app_port, Some(40000));
}

#[test]
fn existing_interface_with_gateway_origin_is_used() {
    let mut fake = FakeConductor::new(vec![new_test_app_info("app_1", DNA_HASH)]);
    fake.interfaces = vec![AppInterfaceInfo {
        port: 30000,
        allowed_origins: AllowedOrigins::Origins(vec!["hc-http-gw".to_string()]),
        installed_app_id: None,
    }];
    let mut pool = AppConnPool::new(pool_config(""));
    let mut admin = new_admin_conn();

    pool.get_or_connect_app_client(&mut admin, &mut fake, &"app_1".to_string())
        .unwrap();
    assert_eq!(pool.cached_app_port, Some(30000));
}

// ---------------------------------------------------------------------------
// Error bodies
// ---------------------------------------------------------------------------

#[test]
fn app_selection_errors_map_to_statuses() {
    let (status, body) =
        HcHttpGatewayError::AppSelectionError(AppSelectionError::NotInstalled)
            .into_status_code_and_body();
    assert_eq!(status, 404);
    assert_eq!(
        body,
        "Error selecting a valid app: App is not installed on the conductor"
    );

    let (status, body) = HcHttpGatewayError::AppSelectionError(AppSelectionError::NotAllowed)
        .into_status_code_and_body();
    assert_eq!(status, 403);
    assert_eq!(
        body,
        "Error selecting a valid app: App is not in the list of allowed apps"
    );

    let (status, body) =
        HcHttpGatewayError::AppSelectionError(AppSelectionError::MultipleMatching)
            .into_status_code_and_body();
    assert_eq!(status, 500);
    assert_eq!(
        body,
        "Error selecting a valid app: Multiple matching apps were found, could not determine which to call"
    );
}

#[test]
fn websocket_error_maps_to_internal_error() {
    let (status, body) = HcHttpGatewayError::HolochainError(ConductorError::Websocket(
        "websocket closed".to_string(),
    ))
    .into_status_code_and_body();
    assert_eq!(status, 500);
    assert_eq!(body, "Something went wrong");
}

#[test]
fn error_body_is_serialized_as_json() {
    let response = hc_http_gw::ErrorResponse::from(
        "Request is malformed: Invalid DNA hash".to_string(),
    );
    assert_eq!(
        response.to_json_string(),
        "{\"error\":\"Request is malformed: Invalid DNA hash\"}"
    );

    // Quotes and control characters are escaped as serde_json escapes them.
    let response = hc_http_gw::ErrorResponse::from("a\"b\\c\nd\u{1f}".to_string());
    assert_eq!(
        response.to_json_string(),
        "{\"error\":\"a\\\"b\\\\c\\nd\\u001f\"}"
    );
}
