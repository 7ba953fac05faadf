//! The request pipeline: validate the request path, enforce the payload
//! bound and the allow list, transcode the payload, drive the call through
//! the connection pool, and transcode the response.

use vstd::prelude::*;
use vstd::string::*;
use crate::admin_conn::AdminConn;
use crate::app_conn_pool::AppConnPool;
use crate::app_selection::{
    app_matches, app_views, count_matches, try_get_valid_app, AppSelectionError,
};
use crate::config::Configuration;
use crate::error::{dec_str_of, u64_to_string, HcHttpGatewayError, HcHttpGatewayResult};
use crate::holochain::{AdminTransport, AppInfo, AppTransport, CellId, CellIdV, CellInfo, CellInfoV};
use crate::transcode::{base64_json_to_hsb, hsb_to_json, payload_text_of};

verus! {

/// The longest identifier accepted in a request path.
pub const MAX_IDENTIFIER_CHARS: u8 = 100;

/// Whether a string is the canonical text form of a DNA hash: the result of
/// holo_hash's parser, which checks the base64 encoding, the hash-type
/// prefix and the location checksum.
pub uninterp spec fn dna_hash_text_ok(s: Seq<char>) -> bool;

/// A string is accepted as a network identifier when it is non-empty ASCII
/// text in the canonical form of a DNA hash.
pub open spec fn dna_hash_valid(s: Seq<char>) -> bool {
    s.len() > 0 && vstd::utf8::is_ascii_chars(s) && dna_hash_text_ok(s)
}

/// Relies on holo_hash's `DnaHash::try_from` for `&str`: whether a string is
/// the canonical text form of a 39-byte DNA hash depends on its characters
/// alone. The parser slices off the first byte unconditionally, so empty and
/// non-ASCII inputs stay out.
#[verifier::external_body]
fn parse_dna_hash_ok(s: &str) -> (r: bool)
    requires
        s@.len() > 0,
        vstd::string::is_ascii(s),
    ensures
        r == dna_hash_text_ok(s@),
{
    holo_hash::DnaHash::try_from(s).is_ok()
}

/// Decide whether a string is a valid network identifier.
pub fn validate_dna_hash(s: &str) -> (r: bool)
    ensures
        r == dna_hash_valid(s@),
{
    if s.unicode_len() == 0 {
        false
    } else if !s.is_ascii() {
        false
    } else {
        parse_dna_hash_ok(s)
    }
}

/// The validated path parameters of a zome call request.
#[derive(Debug, Clone)]
pub struct ZomeCallParams {
    /// The network identifier, a DNA hash in canonical text form.
    pub dna_hash: String,
    /// The application identifier.
    pub coordinator_identifier: String,
    /// The zome name.
    pub zome_name: String,
    /// The function name.
    pub fn_name: String,
}

/// The optional query parameter of a zome call request.
#[derive(Debug, Clone)]
pub struct PayloadQuery {
    /// The payload, as url-safe base64 of a JSON value.
    pub payload: Option<String>,
}

/// The error detail for an identifier over the length bound.
pub open spec fn ident_too_long_msg(id: Seq<char>) -> Seq<char> {
    "Identifier "@ + id + " longer than 100 characters"@
}

/// The error detail for an oversized payload.
pub open spec fn payload_exceeds_msg(limit: int) -> Seq<char> {
    "Payload exceeds "@ + dec_str_of(limit) + " bytes"@
}

/// Whether the path parameters pass validation: a valid network identifier
/// and every other identifier at most [`MAX_IDENTIFIER_CHARS`] characters.
pub open spec fn params_valid(dna: Seq<char>, coord: Seq<char>, zome: Seq<char>, f: Seq<char>) -> bool {
    dna_hash_valid(dna) && coord.len() <= 100 && zome.len() <= 100 && f.len() <= 100
}

/// Parse and validate the path of a zome call request: the network
/// identifier must be a canonical DNA hash, and the application, zome and
/// function identifiers must each stay within the length bound. The checks
/// run in that order and the first failure is reported.
pub fn parse_zome_call_params(
    dna_hash: String,
    coordinator_identifier: String,
    zome_name: String,
    fn_name: String,
) -> (r: Result<ZomeCallParams, HcHttpGatewayError>)
    ensures
        !dna_hash_valid(dna_hash@) ==> (r matches Err(HcHttpGatewayError::RequestMalformed(m))
            && m@ == "Invalid DNA hash"@),
        dna_hash_valid(dna_hash@) && coordinator_identifier@.len() > 100 ==> (r matches Err(
            HcHttpGatewayError::RequestMalformed(m),
        ) && m@ == ident_too_long_msg(coordinator_identifier@)),
        dna_hash_valid(dna_hash@) && coordinator_identifier@.len() <= 100 && zome_name@.len() > 100
            ==> (r matches Err(HcHttpGatewayError::RequestMalformed(m)) && m@
            == ident_too_long_msg(zome_name@)),
        dna_hash_valid(dna_hash@) && coordinator_identifier@.len() <= 100 && zome_name@.len()
            <= 100 && fn_name@.len() > 100 ==> (r matches Err(
            HcHttpGatewayError::RequestMalformed(m),
        ) && m@ == ident_too_long_msg(fn_name@)),
        params_valid(dna_hash@, coordinator_identifier@, zome_name@, fn_name@) ==> (r matches Ok(p)
            && p.dna_hash@ == dna_hash@ && p.coordinator_identifier@ == coordinator_identifier@
            && p.zome_name@ == zome_name@ && p.fn_name@ == fn_name@),
{
    if !validate_dna_hash(dna_hash.as_str()) {
        return Err(HcHttpGatewayError::RequestMalformed(String::from_str("Invalid DNA hash")));
    }
    if coordinator_identifier.as_str().unicode_len() > MAX_IDENTIFIER_CHARS as usize {
        let mut m = String::from_str("Identifier ");
        m.append(coordinator_identifier.as_str());
        m.append(" longer than 100 characters");
        return Err(HcHttpGatewayError::RequestMalformed(m));
    }
    if zome_name.as_str().unicode_len() > MAX_IDENTIFIER_CHARS as usize {
        let mut m = String::from_str("Identifier ");
        m.append(zome_name.as_str());
        m.append(" longer than 100 characters");
        return Err(HcHttpGatewayError::RequestMalformed(m));
    }
    if fn_name.as_str().unicode_len() > MAX_IDENTIFIER_CHARS as usize {
        let mut m = String::from_str("Identifier ");
        m.append(fn_name.as_str());
        m.append(" longer than 100 characters");
        return Err(HcHttpGatewayError::RequestMalformed(m));
    }
    Ok(ZomeCallParams { dna_hash, coordinator_identifier, zome_name, fn_name })
}

/// Shared application state: the administrative connection, the application
/// connection pool (which owns the configuration), and the cached list of
/// installed applications.
#[derive(Debug, Clone)]
pub struct AppState {
    /// The administrative connection.
    pub admin: AdminConn,
    /// The application connection pool, holding the gateway configuration.
    pub pool: AppConnPool,
    /// The cached list of installed applications.
    pub app_info_cache: Vec<AppInfo>,
}

impl AppState {
    /// The state's structural invariant.
    pub open spec fn wf(&self) -> bool {
        self.pool.wf()
    }

    /// The gateway configuration.
    pub open spec fn configuration_spec(&self) -> Configuration {
        self.pool.configuration
    }

    /// The gateway configuration.
    pub fn configuration(&self) -> (r: &Configuration)
        ensures
            *r == self.configuration_spec(),
    {
        &self.pool.configuration
    }

    /// Assemble the state around a configuration: an unconnected
    /// administrative slot, an empty pool, and an empty application cache.
    pub fn new(configuration: Configuration) -> (r: Self)
        ensures
            r.wf(),
            r.configuration_spec() == configuration,
            r.app_info_cache@.len() == 0,
            r.pool.app_clients@.len() == 0,
            r.admin.handle is None,
            r.admin.socket_addr.host@ == configuration.admin_socket_addr.host@,
            r.admin.socket_addr.port == configuration.admin_socket_addr.port,
    {
        let admin = AdminConn::new(
            crate::config::SocketAddress {
                host: configuration.admin_socket_addr.host.clone(),
                port: configuration.admin_socket_addr.port,
            },
        );
        let pool = AppConnPool::new(configuration);
        AppState { admin, pool, app_info_cache: Vec::new() }
    }
}

/// The first provisioned cell of the descriptor on the given network, if
/// any.
pub open spec fn find_cell_spec(cells: Seq<CellInfoV>, dna_hash: Seq<char>) -> Option<CellIdV>
    decreases cells.len(),
{
    if cells.len() == 0 {
        None
    } else {
        match cells[0] {
            CellInfoV::Provisioned(c) => if c.dna_hash == dna_hash {
                Some(c)
            } else {
                find_cell_spec(cells.skip(1), dna_hash)
            },
            CellInfoV::Other => find_cell_spec(cells.skip(1), dna_hash),
        }
    }
}

/// Find the provisioned cell of the descriptor on the given network.
fn find_cell(app_info: &AppInfo, dna_hash: &str) -> (r: Option<CellId>)
    ensures
        match r {
            Some(c) => find_cell_spec(app_info@.cell_info, dna_hash@) == Some(c@),
            None => find_cell_spec(app_info@.cell_info, dna_hash@) is None,
        },
{
    let ghost views = app_info@.cell_info;
    let n = app_info.cell_info.len();
    let mut i: usize = 0;
    proof {
        assert(views.skip(0) =~= views);
    }
    while i < n
        invariant
            views == app_info@.cell_info,
            n == app_info.cell_info@.len(),
            0 <= i <= n,
            find_cell_spec(views, dna_hash@) == find_cell_spec(views.skip(i as int), dna_hash@),
        decreases n - i,
    {
        proof {
            assert(views.skip(i as int)[0] == views[i as int]);
            assert(views[i as int] == app_info.cell_info@[i as int]@);
            assert(views.skip(i as int).skip(1) =~= views.skip(i + 1 as int));
        }
        match &app_info.cell_info[i] {
            CellInfo::Provisioned(c) => {
                if crate::config::str_eq(c.dna_hash.as_str(), dna_hash) {
                    return Some(
                        CellId { dna_hash: c.dna_hash.clone(), agent_key: c.agent_key.clone() },
                    );
                }
            },
            CellInfo::Other => {},
        }
        i = i + 1;
    }
    None
}

/// Whether the cached application list pins the request down to a denial:
/// it holds exactly one matching descriptor, and every matching descriptor
/// is in the allow list but the policy denies it the requested function.
/// A request in this situation must be answered with the unauthorized error.
pub open spec fn cache_denies(
    cache: Seq<AppInfo>,
    cfg: Configuration,
    dna: Seq<char>,
    coord: Seq<char>,
    zome: Seq<char>,
    f: Seq<char>,
) -> bool {
    count_matches(app_views(cache), dna, coord) == 1 && (forall|i: int|
        0 <= i < cache.len() && app_matches((#[trigger] cache[i])@, dna, coord) ==> (
        cfg.allowed_app_ids.allows(cache[i]@.installed_app_id) && !cfg.fn_allowed_spec(
            cache[i]@.installed_app_id,
            zome,
            f,
        )))
}

/// Whether the cached application list resolves the request to a permitted
/// call: it holds exactly one matching descriptor, and every matching
/// descriptor is in the allow list with the requested function allowed.
/// A request in this situation proceeds to the payload transcoding.
pub open spec fn cache_resolves_allowed(
    cache: Seq<AppInfo>,
    cfg: Configuration,
    dna: Seq<char>,
    coord: Seq<char>,
    zome: Seq<char>,
    f: Seq<char>,
) -> bool {
    count_matches(app_views(cache), dna, coord) == 1 && (forall|i: int|
        0 <= i < cache.len() && app_matches((#[trigger] cache[i])@, dna, coord) ==> (
        cfg.allowed_app_ids.allows(cache[i]@.installed_app_id) && cfg.fn_allowed_spec(
            cache[i]@.installed_app_id,
            zome,
            f,
        )))
}

/// Whether the query payload exceeds the configured byte bound. The bound is
/// checked on the encoded form: it limits the URL's query, not the decoded
/// value.
pub open spec fn payload_oversize(payload: Option<Seq<char>>, limit: int) -> bool {
    match payload {
        Some(p) => (vstd::utf8::encode_utf8(p).len() as usize) as int > limit,
        None => false,
    }
}

/// The view of an optional payload string.
pub open spec fn payload_view(q: PayloadQuery) -> Option<Seq<char>> {
    match q.payload {
        Some(p) => Some(p@),
        None => None,
    }
}

/// Handle one zome call request: check the payload bound, resolve the
/// application, enforce the allow list, transcode the payload, drive the
/// call through the pool with bounded retry, and transcode the response.
#[verifier::rlimit(30)]
pub fn zome_call<T: AdminTransport + AppTransport>(
    params: ZomeCallParams,
    query: PayloadQuery,
    state: &mut AppState,
    t: &mut T,
) -> (r: HcHttpGatewayResult<String>)
    requires
        old(state).wf(),
    ensures
        final(state).wf(),
        final(state).configuration_spec() == old(state).configuration_spec(),
        payload_oversize(
            payload_view(query),
            old(state).configuration_spec().payload_limit_bytes as int,
        ) ==> (r matches Err(HcHttpGatewayError::RequestMalformed(m)) && m@
            == payload_exceeds_msg(old(state).configuration_spec().payload_limit_bytes as int)),
        r matches Err(HcHttpGatewayError::UnauthorizedFunction { app_id, zome_name, fn_name })
            ==> (zome_name@ == params.zome_name@ && fn_name@ == params.fn_name@ && !old(
            state,
        ).configuration_spec().fn_allowed_spec(app_id@, params.zome_name@, params.fn_name@)),
        (!payload_oversize(
            payload_view(query),
            old(state).configuration_spec().payload_limit_bytes as int,
        ) && cache_denies(
            old(state).app_info_cache@,
            old(state).configuration_spec(),
            params.dna_hash@,
            params.coordinator_identifier@,
            params.zome_name@,
            params.fn_name@,
        )) ==> (r matches Err(HcHttpGatewayError::UnauthorizedFunction { app_id, zome_name, fn_name })
            && zome_name@ == params.zome_name@ && fn_name@ == params.fn_name@ && (exists|i: int|
            0 <= i < old(state).app_info_cache@.len() && app_matches(
                (#[trigger] old(state).app_info_cache@[i])@,
                params.dna_hash@,
                params.coordinator_identifier@,
            ) && app_id@ == old(state).app_info_cache@[i]@.installed_app_id)),
        (!payload_oversize(
            payload_view(query),
            old(state).configuration_spec().payload_limit_bytes as int,
        ) && count_matches(
            app_views(old(state).app_info_cache@),
            params.dna_hash@,
            params.coordinator_identifier@,
        ) >= 2) ==> r matches Err(HcHttpGatewayError::AppSelectionError(
            AppSelectionError::MultipleMatching,
        )),
        (!payload_oversize(
            payload_view(query),
            old(state).configuration_spec().payload_limit_bytes as int,
        ) && cache_resolves_allowed(
            old(state).app_info_cache@,
            old(state).configuration_spec(),
            params.dna_hash@,
            params.coordinator_identifier@,
            params.zome_name@,
            params.fn_name@,
        )) ==> (match payload_text_of(payload_view(query)) {
            Err(msg) => r matches Err(HcHttpGatewayError::RequestMalformed(m)) && m@ == msg,
            Ok(_) => true,
        }),
        r matches Err(HcHttpGatewayError::RequestMalformed(m)) ==> ((payload_oversize(
            payload_view(query),
            old(state).configuration_spec().payload_limit_bytes as int,
        ) && m@ == payload_exceeds_msg(
            old(state).configuration_spec().payload_limit_bytes as int,
        )) || (payload_text_of(payload_view(query)) matches Err(t) && m@ == t)),
        r is Ok ==> !payload_oversize(
            payload_view(query),
            old(state).configuration_spec().payload_limit_bytes as int,
        ) && payload_text_of(payload_view(query)) is Ok && count_matches(
            app_views(final(state).app_info_cache@),
            params.dna_hash@,
            params.coordinator_identifier@,
        ) == 1 && (exists|i: int|
            0 <= i < final(state).app_info_cache@.len() && crate::app_selection::app_matches(
                (#[trigger] final(state).app_info_cache@[i])@,
                params.dna_hash@,
                params.coordinator_identifier@,
            ) && old(state).configuration_spec().allowed_app_ids.allows(
                final(state).app_info_cache@[i]@.installed_app_id,
            ) && old(state).configuration_spec().fn_allowed_spec(
                final(state).app_info_cache@[i]@.installed_app_id,
                params.zome_name@,
                params.fn_name@,
            )),
{
    let ZomeCallParams { dna_hash, coordinator_identifier, zome_name, fn_name } = params;

    // Check that the payload byte length does not exceed the configured
    // maximum. The length of a string is its number of bytes.
    if let Some(payload) = &query.payload {
        let s = payload.as_str();
        let plen = s.len();
        proof {
            assert(s.spec_bytes() == vstd::utf8::encode_utf8(s@));
            assert(s@ == payload@);
            assert(plen == vstd::utf8::encode_utf8(payload@).len() as usize);
        }
        if plen > state.pool.configuration.payload_limit_bytes as usize {
            let mut m = String::from_str("Payload exceeds ");
            let limit = u64_to_string(state.pool.configuration.payload_limit_bytes as u64);
            m.append(limit.as_str());
            m.append(" bytes");
            return Err(HcHttpGatewayError::RequestMalformed(m));
        }
    }

    // Resolve the application, refreshing the cache when it misses.
    let app_info = match try_get_valid_app(
        &dna_hash,
        &coordinator_identifier,
        &mut state.app_info_cache,
        &state.pool.configuration.allowed_app_ids,
        &mut state.admin,
        t,
    ) {
        Ok(app_info) => app_info,
        Err(e) => {
            proof {
                // A cache that pins the request down to a denial, or that
                // resolves it to a permitted call, forces the selection to
                // succeed, so this exit cannot be reached then.
                let oldc = old(state).app_info_cache@;
                let cfg = old(state).configuration_spec();
                if cache_denies(oldc, cfg, dna_hash@, coordinator_identifier@, zome_name@, fn_name@)
                    || cache_resolves_allowed(
                    oldc,
                    cfg,
                    dna_hash@,
                    coordinator_identifier@,
                    zome_name@,
                    fn_name@,
                ) {
                    assert(state.app_info_cache@ == oldc);
                    if e == AppSelectionError::NotAllowed {
                        let i = choose|i: int|
                            0 <= i < state.app_info_cache@.len() && app_matches(
                                #[trigger] state.app_info_cache@[i]@,
                                dna_hash@,
                                coordinator_identifier@,
                            ) && !cfg.allowed_app_ids.allows(
                                state.app_info_cache@[i]@.installed_app_id,
                            );
                        assert(app_matches(oldc[i]@, dna_hash@, coordinator_identifier@));
                        assert(false);
                    }
                    assert(false);
                }
            }
            return Err(HcHttpGatewayError::AppSelectionError(e));
        },
    };

    // Check that the requested function is allowed.
    if !state.pool.configuration.is_function_allowed(
        app_info.installed_app_id.as_str(),
        zome_name.as_str(),
        fn_name.as_str(),
    ) {
        proof {
            // The selected descriptor stands in the cache; record the
            // witness for the denial contract. A cache that resolves the
            // request to a permitted call cannot reach this exit.
            let cache = state.app_info_cache@;
            let i = choose|i: int| 0 <= i < cache.len() && (#[trigger] cache[i]@) == app_info@;
            assert(app_matches(cache[i]@, dna_hash@, coordinator_identifier@));
            if count_matches(
                app_views(old(state).app_info_cache@),
                dna_hash@,
                coordinator_identifier@,
            ) != 0 {
                assert(state.app_info_cache@ == old(state).app_info_cache@);
                assert(app_matches(
                    (old(state).app_info_cache@[i])@,
                    dna_hash@,
                    coordinator_identifier@,
                ));
                assert(old(state).app_info_cache@[i]@.installed_app_id
                    == app_info@.installed_app_id);
            }
            if cache_resolves_allowed(
                old(state).app_info_cache@,
                old(state).configuration_spec(),
                dna_hash@,
                coordinator_identifier@,
                zome_name@,
                fn_name@,
            ) {
                assert(false);
            }
        }
        return Err(
            HcHttpGatewayError::UnauthorizedFunction {
                app_id: app_info.installed_app_id,
                zome_name,
                fn_name,
            },
        );
    }
    proof {
        // The application selection placed the chosen descriptor in the
        // cache; record the witness for the success contract. A cache that
        // pins the request down to a denial cannot reach this point.
        let cache = state.app_info_cache@;
        let i = choose|i: int| 0 <= i < cache.len() && (#[trigger] cache[i]@) == app_info@;
        assert(app_matches(cache[i]@, dna_hash@, coordinator_identifier@));
        assert(state.pool.configuration.allowed_app_ids.allows(cache[i]@.installed_app_id));
        assert(state.pool.configuration.fn_allowed_spec(
            cache[i]@.installed_app_id,
            zome_name@,
            fn_name@,
        ));
        if cache_denies(
            old(state).app_info_cache@,
            old(state).configuration_spec(),
            dna_hash@,
            coordinator_identifier@,
            zome_name@,
            fn_name@,
        ) {
            assert(state.app_info_cache@ == old(state).app_info_cache@);
            assert(app_matches(
                (old(state).app_info_cache@[i])@,
                dna_hash@,
                coordinator_identifier@,
            ));
            assert(false);
        }
    }

    // Transcode the payload from base64 encoded JSON to wire bytes.
    let zome_call_payload = match base64_json_to_hsb(query.payload) {
        Ok(w) => w,
        Err(e) => {
            return Err(e);
        },
    };
    proof {
        assert(payload_text_of(payload_view(query)) is Ok);
    }

    // The call goes to the provisioned cell on the requested network.
    let cell_id = match find_cell(&app_info, dna_hash.as_str()) {
        Some(c) => c,
        None => {
            return Err(
                HcHttpGatewayError::AppSelectionError(
                    crate::app_selection::AppSelectionError::NotInstalled,
                ),
            );
        },
    };

    // Drive the call through the pool, with bounded retry. The allow-list
    // check above implies that the policy has an entry for this application.
    proof {
        assert(crate::config::lookup_fns(
            state.pool.configuration.allowed_fns@,
            app_info.installed_app_id@,
        ) is Some);
    }
    let response = match state.pool.call(
        &mut state.admin,
        t,
        &app_info.installed_app_id,
        &cell_id,
        &zome_name,
        &fn_name,
        &zome_call_payload,
    ) {
        Ok(resp) => resp,
        Err(e) => {
            return Err(e);
        },
    };

    // Transcode the wire-encoded response to a JSON string.
    proof {
        assert(!payload_oversize(
            payload_view(query),
            old(state).configuration_spec().payload_limit_bytes as int,
        ));
        assert(payload_text_of(payload_view(query)) is Ok);
        assert(count_matches(
            app_views(state.app_info_cache@),
            dna_hash@,
            coordinator_identifier@,
        ) == 1);
    }
    hsb_to_json(&response)
}

} // verus!
