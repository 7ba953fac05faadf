//! The pool of per-application connections.
//!
//! The pool keeps at most one authenticated application connection per
//! installed application, bounded by the configured maximum. When an
//! insertion would exceed the bound, the entry with the smallest opening
//! time is evicted, ties broken by the application identifier.

use vstd::prelude::*;
use vstd::string::*;
use crate::admin_conn::AdminConn;
use crate::config::{
    lookup_fns, granted_functions_for, seq_char_lt, str_eq, Configuration,
};
use crate::error::{is_transport_error, ConductorError, HcHttpGatewayError, HcHttpGatewayResult};
use crate::holochain::{
    AdminRequest, AdminResponse, AdminTransport, AppInfo, AppInterfaceInfo, AppTransport, CellId,
    CellInfo, HTTP_GW_ORIGIN,
};

verus! {

/// An app websocket connection handle together with the state required to
/// manage the connection.
#[derive(Debug, Clone, Copy, PartialEq, Eq, Structural)]
pub struct AppWebsocketWithState {
    /// The connection handle.
    pub app_ws: u64,
    /// The time at which the connection was opened.
    pub opened_at: i64,
}

/// The entry of the pool that holds the given application id, if any; the
/// first entry counts.
pub open spec fn pool_lookup(
    entries: Seq<(String, AppWebsocketWithState)>,
    id: Seq<char>,
) -> Option<AppWebsocketWithState>
    decreases entries.len(),
{
    if entries.len() == 0 {
        None
    } else if entries[0].0@ == id {
        Some(entries[0].1)
    } else {
        pool_lookup(entries.skip(1), id)
    }
}

/// The entries with the first entry for the given application id removed;
/// the entries unchanged when none carries that id.
pub open spec fn pool_remove(
    entries: Seq<(String, AppWebsocketWithState)>,
    id: Seq<char>,
) -> Seq<(String, AppWebsocketWithState)>
    decreases entries.len(),
{
    if entries.len() == 0 {
        entries
    } else if entries[0].0@ == id {
        entries.skip(1)
    } else {
        seq![entries[0]] + pool_remove(entries.skip(1), id)
    }
}

proof fn lemma_pool_remove_absent(entries: Seq<(String, AppWebsocketWithState)>, id: Seq<char>)
    requires
        forall|i: int| 0 <= i < entries.len() ==> (#[trigger] entries[i]).0@ != id,
    ensures
        pool_remove(entries, id) == entries,
    decreases entries.len(),
{
    if entries.len() > 0 {
        assert(forall|i: int|
            0 <= i < entries.skip(1).len() ==> entries.skip(1)[i] == #[trigger] entries[i + 1]);
        lemma_pool_remove_absent(entries.skip(1), id);
        assert(seq![entries[0]] + entries.skip(1) =~= entries);
    }
}

proof fn lemma_pool_remove_at(
    entries: Seq<(String, AppWebsocketWithState)>,
    id: Seq<char>,
    k: int,
)
    requires
        0 <= k < entries.len(),
        entries[k].0@ == id,
        forall|j: int| 0 <= j < k ==> (#[trigger] entries[j]).0@ != id,
    ensures
        pool_remove(entries, id) == entries.remove(k),
    decreases entries.len(),
{
    if k == 0 {
        assert(entries.skip(1) =~= entries.remove(0));
    } else {
        assert(forall|i: int|
            0 <= i < entries.skip(1).len() ==> entries.skip(1)[i] == #[trigger] entries[i + 1]);
        lemma_pool_remove_at(entries.skip(1), id, k - 1);
        assert(seq![entries[0]] + entries.skip(1).remove(k - 1) =~= entries.remove(k));
    }
}

/// Whether all application ids of the entries are distinct.
pub open spec fn pool_ids_unique(entries: Seq<(String, AppWebsocketWithState)>) -> bool {
    forall|i: int, j: int|
        0 <= i < j < entries.len() ==> (#[trigger] entries[i]).0@ != (#[trigger] entries[j]).0@
}

/// Whether entry `x` was opened before entry `y`: strictly earlier, or at
/// the same time with a lexicographically smaller identifier.
pub open spec fn entry_older(
    x: (String, AppWebsocketWithState),
    y: (String, AppWebsocketWithState),
) -> bool {
    x.1.opened_at < y.1.opened_at || (x.1.opened_at == y.1.opened_at && seq_char_lt(x.0@, y.0@))
}

proof fn lemma_pool_lookup_none(entries: Seq<(String, AppWebsocketWithState)>, id: Seq<char>)
    ensures
        pool_lookup(entries, id) is None <==> (forall|i: int|
            0 <= i < entries.len() ==> (#[trigger] entries[i]).0@ != id),
    decreases entries.len(),
{
    if entries.len() > 0 {
        lemma_pool_lookup_none(entries.skip(1), id);
        assert(forall|i: int|
            0 <= i < entries.skip(1).len() ==> entries.skip(1)[i] == #[trigger] entries[i + 1]);
        if pool_lookup(entries, id) is None {
            assert forall|i: int| 0 <= i < entries.len() implies (#[trigger] entries[i]).0@
                != id by {
                if i > 0 {
                    assert(entries.skip(1)[i - 1] == entries[i]);
                }
            }
        }
    }
}

/// A connection pool for app connections.
///
/// This is a pool in the sense that it manages multiple connections to the
/// conductor's app interfaces, but it holds exactly one connection per
/// installed app.
#[derive(Debug, Clone)]
pub struct AppConnPool {
    /// The gateway configuration, which bounds the pool and names the
    /// functions that credentials are granted for.
    pub configuration: Configuration,
    /// A port previously discovered or provisioned for application traffic;
    /// cleared when connecting through it fails.
    pub cached_app_port: Option<u16>,
    /// The pooled connections, one per application id.
    pub app_clients: Vec<(String, AppWebsocketWithState)>,
}

impl AppConnPool {
    /// The pool's structural invariant: application ids are unique and the
    /// size respects the configured bound.
    pub open spec fn wf(&self) -> bool {
        pool_ids_unique(self.app_clients@) && self.app_clients@.len()
            <= self.configuration.max_app_connections
    }

    /// Create a new app connection pool with the given configuration.
    pub fn new(configuration: Configuration) -> (r: Self)
        ensures
            r.wf(),
            r.configuration == configuration,
            r.cached_app_port is None,
            r.app_clients@.len() == 0,
    {
        AppConnPool { configuration, cached_app_port: None, app_clients: Vec::new() }
    }

    /// The pooled connection for the given application id, if any.
    pub fn get_existing(&self, installed_app_id: &str) -> (r: Option<u64>)
        ensures
            match pool_lookup(self.app_clients@, installed_app_id@) {
                Some(e) => r == Some(e.app_ws),
                None => r is None,
            },
    {
        let n = self.app_clients.len();
        let mut k: usize = 0;
        proof {
            assert(self.app_clients@.skip(0) =~= self.app_clients@);
        }
        while k < n
            invariant
                n == self.app_clients@.len(),
                0 <= k <= n,
                pool_lookup(self.app_clients@, installed_app_id@) == pool_lookup(
                    self.app_clients@.skip(k as int),
                    installed_app_id@,
                ),
            decreases n - k,
        {
            proof {
                assert(self.app_clients@.skip(k as int)[0] == self.app_clients@[k as int]);
                assert(self.app_clients@.skip(k as int).skip(1) =~= self.app_clients@.skip(
                    k + 1 as int,
                ));
            }
            if str_eq(self.app_clients[k].0.as_str(), installed_app_id) {
                return Some(self.app_clients[k].1.app_ws);
            }
            k = k + 1;
        }
        None
    }

    /// Remove an app client from the pool: the first entry for the given id
    /// goes, every other entry stays, and removing an absent id changes
    /// nothing.
    pub fn remove_app_client(&mut self, installed_app_id: &String)
        ensures
            final(self).configuration == old(self).configuration,
            final(self).cached_app_port == old(self).cached_app_port,
            final(self).app_clients@ == pool_remove(old(self).app_clients@, installed_app_id@),
            pool_lookup(final(self).app_clients@, installed_app_id@) is None || !pool_ids_unique(
                old(self).app_clients@,
            ),
            old(self).wf() ==> final(self).wf(),
            final(self).app_clients@.len() <= old(self).app_clients@.len(),
    {
        let n = self.app_clients.len();
        let mut k: usize = 0;
        while k < n
            invariant
                n == self.app_clients@.len(),
                0 <= k <= n,
                forall|j: int|
                    0 <= j < k ==> (#[trigger] self.app_clients@[j]).0@ != installed_app_id@,
                self == old(self),
            decreases n - k,
        {
            if str_eq(self.app_clients[k].0.as_str(), installed_app_id.as_str()) {
                proof {
                    lemma_pool_remove_at(self.app_clients@, installed_app_id@, k as int);
                }
                self.app_clients.remove(k);
                proof {
                    let olde = old(self).app_clients@;
                    let newe = self.app_clients@;
                    assert(newe =~= olde.remove(k as int));
                    if pool_ids_unique(olde) {
                        assert forall|i: int, j: int| 0 <= i < j < newe.len() implies (
                        #[trigger] newe[i]).0@ != (#[trigger] newe[j]).0@ by {
                            let oi = if i < k {
                                i
                            } else {
                                i + 1
                            };
                            let oj = if j < k {
                                j
                            } else {
                                j + 1
                            };
                            assert(newe[i] == olde[oi]);
                            assert(newe[j] == olde[oj]);
                        }
                        assert forall|i: int| 0 <= i < newe.len() implies (#[trigger] newe[i]).0@
                            != installed_app_id@ by {
                            let oi = if i < k {
                                i
                            } else {
                                i + 1
                            };
                            assert(newe[i] == olde[oi]);
                            if oi != k {
                                assert(olde[oi].0@ != olde[k as int].0@);
                            }
                        }
                        lemma_pool_lookup_none(newe, installed_app_id@);
                    }
                }
                return ;
            }
            k = k + 1;
        }
        proof {
            lemma_pool_lookup_none(self.app_clients@, installed_app_id@);
            lemma_pool_remove_absent(self.app_clients@, installed_app_id@);
        }
    }
}

proof fn lemma_seq_char_lt_irrefl(a: Seq<char>)
    ensures
        !seq_char_lt(a, a),
    decreases a.len(),
{
    if a.len() > 0 {
        lemma_seq_char_lt_irrefl(a.skip(1));
    }
}

proof fn lemma_seq_char_lt_trans(a: Seq<char>, b: Seq<char>, c: Seq<char>)
    requires
        seq_char_lt(a, b),
        seq_char_lt(b, c),
    ensures
        seq_char_lt(a, c),
    decreases a.len() + b.len() + c.len(),
{
    if a.len() == 0 {
    } else {
        if (a[0] as int) < (b[0] as int) {
        } else {
            if (b[0] as int) < (c[0] as int) {
            } else {
                lemma_seq_char_lt_trans(a.skip(1), b.skip(1), c.skip(1));
            }
        }
    }
}

proof fn lemma_entry_older_trans(
    x: (String, AppWebsocketWithState),
    y: (String, AppWebsocketWithState),
    z: (String, AppWebsocketWithState),
)
    requires
        entry_older(x, y),
        entry_older(y, z),
    ensures
        entry_older(x, z),
{
    if x.1.opened_at == y.1.opened_at && y.1.opened_at == z.1.opened_at {
        lemma_seq_char_lt_trans(x.0@, y.0@, z.0@);
    }
}

proof fn lemma_entry_older_asym(x: (String, AppWebsocketWithState), y: (
    String,
    AppWebsocketWithState,
))
    requires
        entry_older(x, y),
    ensures
        !entry_older(y, x),
{
    if x.1.opened_at == y.1.opened_at {
        if seq_char_lt(y.0@, x.0@) {
            lemma_seq_char_lt_trans(x.0@, y.0@, x.0@);
            lemma_seq_char_lt_irrefl(x.0@);
        }
    }
}

impl AppConnPool {
    /// Remove the entry with the smallest opening time, ties broken by the
    /// application identifier.
    fn evict_oldest(&mut self)
        requires
            old(self).app_clients@.len() > 0,
        ensures
            final(self).configuration == old(self).configuration,
            final(self).cached_app_port == old(self).cached_app_port,
            final(self).app_clients@.len() == old(self).app_clients@.len() - 1,
            pool_ids_unique(old(self).app_clients@) ==> pool_ids_unique(final(self).app_clients@),
            exists|i: int|
                0 <= i < old(self).app_clients@.len() && final(self).app_clients@ == old(
                    self,
                ).app_clients@.remove(i) && (forall|j: int|
                    0 <= j < old(self).app_clients@.len() && j != i ==> !entry_older(
                        #[trigger] old(self).app_clients@[j],
                        old(self).app_clients@[i],
                    )),
    {
        let n = self.app_clients.len();
        let mut min: usize = 0;
        let mut k: usize = 1;
        while k < n
            invariant
                self == old(self),
                n == self.app_clients@.len(),
                n > 0,
                0 <= min < k <= n,
                forall|j: int|
                    0 <= j < k && j != min ==> !entry_older(
                        #[trigger] self.app_clients@[j],
                        self.app_clients@[min as int],
                    ),
            decreases n - k,
        {
            let older = if self.app_clients[k].1.opened_at < self.app_clients[min].1.opened_at {
                true
            } else if self.app_clients[k].1.opened_at == self.app_clients[min].1.opened_at {
                crate::config::str_lt(
                    self.app_clients[k].0.as_str(),
                    self.app_clients[min].0.as_str(),
                )
            } else {
                false
            };
            proof {
                let e = self.app_clients@;
                if older {
                    assert(entry_older(e[k as int], e[min as int]));
                    assert forall|j: int| 0 <= j < k + 1 && j != k implies !entry_older(
                        #[trigger] e[j],
                        e[k as int],
                    ) by {
                        if j == min {
                            lemma_entry_older_asym(e[k as int], e[min as int]);
                        } else {
                            if entry_older(e[j], e[k as int]) {
                                lemma_entry_older_trans(e[j], e[k as int], e[min as int]);
                            }
                        }
                    }
                } else {
                    assert(!entry_older(e[k as int], e[min as int]));
                }
            }
            if older {
                min = k;
            }
            k = k + 1;
        }
        let ghost olde = self.app_clients@;
        let ghost mini = min as int;
        self.app_clients.remove(min);
        proof {
            assert(self.app_clients@ =~= olde.remove(mini));
            if pool_ids_unique(olde) {
                let newe = self.app_clients@;
                assert forall|i: int, j: int| 0 <= i < j < newe.len() implies (
                #[trigger] newe[i]).0@ != (#[trigger] newe[j]).0@ by {
                    let oi = if i < mini {
                        i
                    } else {
                        i + 1
                    };
                    let oj = if j < mini {
                        j
                    } else {
                        j + 1
                    };
                    assert(newe[i] == olde[oi]);
                    assert(newe[j] == olde[oj]);
                }
            }
        }
    }

    /// Attempt to open and authorize a fresh application connection: resolve
    /// the app port, obtain a connection token, connect with the gateway's
    /// origin tag, and authorize signing credentials for every provisioned
    /// cell. The pooled entries are not touched; a failed websocket
    /// connection clears the cached port.
    fn attempt_connect_app_ws<T: AdminTransport + AppTransport>(
        &mut self,
        admin: &mut AdminConn,
        t: &mut T,
        installed_app_id: &String,
    ) -> (r: Result<u64, HcHttpGatewayError>)
        requires
            lookup_fns(old(self).configuration.allowed_fns@, installed_app_id@) is Some,
        ensures
            final(self).app_clients == old(self).app_clients,
            final(self).configuration == old(self).configuration,
            r matches Err(e) ==> (e matches HcHttpGatewayError::UpstreamUnavailable || (
            e matches HcHttpGatewayError::HolochainError(ce) && !is_transport_error(ce))),
    {
        // Resolve the app port for a compatible app interface, which may be
        // a cached value.
        let app_port = match self.get_app_port(admin, t, installed_app_id) {
            Ok(p) => p,
            Err(e) => {
                return Err(e);
            },
        };

        // Issue an app authentication token to allow us to connect a new client.
        let token = match admin.call(
            t,
            &AdminRequest::IssueAppAuthToken {
                installed_app_id: installed_app_id.clone(),
                single_use: true,
            },
        ) {
            Ok(AdminResponse::AppAuthTokenIssued(tok)) => tok,
            Ok(_) => {
                return Err(
                    HcHttpGatewayError::HolochainError(
                        ConductorError::Other(
                            String::from_str("unexpected response to a token request"),
                        ),
                    ),
                );
            },
            Err(e) => {
                return Err(e);
            },
        };

        // Attempt to connect to the app websocket, with the request timeout
        // from the configuration and the gateway's origin tag.
        let conn = match t.connect_app(
            &self.configuration.admin_socket_addr.host,
            app_port,
            &token,
            self.configuration.zome_call_timeout_ms,
            HTTP_GW_ORIGIN,
        ) {
            Some(c) => c,
            None => {
                // The cached port may be stale: clear it so that the next
                // attempt re-checks the app interfaces.
                self.cached_app_port = None;
                return Err(HcHttpGatewayError::UpstreamUnavailable);
            },
        };

        // Collect the provisioned cells of the connected app.
        let app_info = t.cached_app_info(conn);
        let cells = collect_provisioned(&app_info.cell_info);

        // For each cell in the app, authorize signing credentials for the
        // functions that the policy allows for this app.
        let ncells = cells.len();
        let mut ci: usize = 0;
        while ci < ncells
            invariant
                ncells == cells@.len(),
                self.app_clients == old(self).app_clients,
                self.configuration == old(self).configuration,
                lookup_fns(self.configuration.allowed_fns@, installed_app_id@) is Some,
            decreases ncells - ci,
        {
            let allowed = match self.configuration.get_allowed_functions(
                installed_app_id.as_str(),
            ) {
                Some(a) => a,
                None => {
                    proof {
                        assert(false);
                    }
                    return Err(HcHttpGatewayError::UpstreamUnavailable);
                },
            };
            let granted = granted_functions_for(allowed);
            let cell = CellId {
                dna_hash: cells[ci].dna_hash.clone(),
                agent_key: cells[ci].agent_key.clone(),
            };
            match admin.call(
                t,
                &AdminRequest::AuthorizeSigningCredentials { cell_id: cell, functions: granted },
            ) {
                Ok(AdminResponse::SigningCredentialsAuthorized(creds)) => {
                    let cell_again = CellId {
                        dna_hash: cells[ci].dna_hash.clone(),
                        agent_key: cells[ci].agent_key.clone(),
                    };
                    t.add_credentials(conn, &cell_again, creds);
                },
                Ok(_) => {
                    return Err(
                        HcHttpGatewayError::HolochainError(
                            ConductorError::Other(
                                String::from_str(
                                    "unexpected response to a credentials request",
                                ),
                            ),
                        ),
                    );
                },
                Err(e) => {
                    return Err(e);
                },
            }
            ci = ci + 1;
        }

        Ok(conn)
    }

    /// The app port for a compatible app interface, which may be a cached
    /// value: the first interface that accepts the gateway's origin and is
    /// not restricted to another application; when none qualifies, a new
    /// interface is attached.
    fn get_app_port<T: AdminTransport>(
        &mut self,
        admin: &mut AdminConn,
        t: &mut T,
        installed_app_id: &String,
    ) -> (r: Result<u16, HcHttpGatewayError>)
        ensures
            final(self).app_clients == old(self).app_clients,
            final(self).configuration == old(self).configuration,
            r matches Ok(p) ==> final(self).cached_app_port == Some(p),
            old(self).cached_app_port matches Some(p) ==> (r == Ok::<u16, HcHttpGatewayError>(p)
                && *final(self) == *old(self)),
            r matches Err(e) ==> (e matches HcHttpGatewayError::UpstreamUnavailable || (
            e matches HcHttpGatewayError::HolochainError(ce) && !is_transport_error(ce))),
    {
        if let Some(app_port) = self.cached_app_port {
            return Ok(app_port);
        }

        let app_interfaces = match admin.call(t, &AdminRequest::ListAppInterfaces) {
            Ok(AdminResponse::AppInterfaces(v)) => v,
            Ok(_) => {
                return Err(
                    HcHttpGatewayError::HolochainError(
                        ConductorError::Other(
                            String::from_str("unexpected response to an interface listing"),
                        ),
                    ),
                );
            },
            Err(e) => {
                return Err(e);
            },
        };

        let app_port = match select_app_interface(&app_interfaces, installed_app_id) {
            Some(port) => port,
            None => {
                // No compatible interface exists: attach a new one that
                // accepts the gateway's origin, on a port of the conductor's
                // choosing.
                match admin.call(
                    t,
                    &AdminRequest::AttachAppInterface {
                        port: 0,
                        allowed_origin: String::from_str(HTTP_GW_ORIGIN),
                        installed_app_id: None,
                    },
                ) {
                    Ok(AdminResponse::AppInterfaceAttached(port)) => port,
                    Ok(_) => {
                        return Err(
                            HcHttpGatewayError::HolochainError(
                                ConductorError::Other(
                                    String::from_str(
                                        "unexpected response to an interface attachment",
                                    ),
                                ),
                            ),
                        );
                    },
                    Err(e) => {
                        return Err(e);
                    },
                }
            },
        };
        self.cached_app_port = Some(app_port);
        Ok(app_port)
    }

    /// Get or connect an app client for the given installed app ID.
    ///
    /// A pooled connection is returned as it is, without any handshake; a
    /// fresh connection is inserted with the current time as its age, and
    /// when the pool then exceeds its bound the oldest entry is evicted.
    pub fn get_or_connect_app_client<T: AdminTransport + AppTransport>(
        &mut self,
        admin: &mut AdminConn,
        t: &mut T,
        installed_app_id: &String,
    ) -> (r: Result<u64, HcHttpGatewayError>)
        requires
            old(self).wf(),
            lookup_fns(old(self).configuration.allowed_fns@, installed_app_id@) is Some,
        ensures
            final(self).wf(),
            final(self).configuration == old(self).configuration,
            pool_lookup(old(self).app_clients@, installed_app_id@) matches Some(e) ==> (r == Ok::<
                u64,
                HcHttpGatewayError,
            >(e.app_ws) && *final(self) == *old(self)),
            r is Err ==> final(self).app_clients == old(self).app_clients,
            r matches Err(e) ==> (e matches HcHttpGatewayError::UpstreamUnavailable || (
            e matches HcHttpGatewayError::HolochainError(ce) && !is_transport_error(ce))),
            pool_lookup(old(self).app_clients@, installed_app_id@) is None ==> (r matches Ok(c)
                ==> insert_outcome(
                old(self).app_clients@,
                final(self).app_clients@,
                installed_app_id@,
                c,
                old(self).configuration.max_app_connections as int,
            )),
    {
        if let Some(ws) = self.get_existing(installed_app_id.as_str()) {
            proof {
                lemma_pool_lookup_none(self.app_clients@, installed_app_id@);
            }
            return Ok(ws);
        }

        let app_ws = match self.attempt_connect_app_ws(admin, t, installed_app_id) {
            Ok(ws) => ws,
            Err(e) => {
                return Err(e);
            },
        };

        let opened_at = t.now();
        let entry = (installed_app_id.clone(), AppWebsocketWithState { app_ws, opened_at });
        let ghost before_push = self.app_clients@;
        let ghost pushed_entry = entry;
        self.app_clients.push(entry);
        proof {
            lemma_pool_lookup_none(before_push, installed_app_id@);
            let pushed = self.app_clients@;
            assert(pushed =~= before_push.push(pushed_entry));
            assert forall|i: int, j: int| 0 <= i < j < pushed.len() implies (
            #[trigger] pushed[i]).0@ != (#[trigger] pushed[j]).0@ by {
                if j < pushed.len() - 1 {
                    assert(pushed[i] == before_push[i]);
                    assert(pushed[j] == before_push[j]);
                } else {
                    assert(pushed[i] == before_push[i]);
                    assert(pushed[j].0@ == installed_app_id@);
                }
            }
        }
        let ghost pushed = self.app_clients@;
        if self.app_clients.len() > self.configuration.max_app_connections as usize {
            self.evict_oldest();
        }
        proof {
            assert(insert_outcome(
                before_push,
                self.app_clients@,
                installed_app_id@,
                app_ws,
                self.configuration.max_app_connections as int,
            )) by {
                assert(pushed_entry.0@ == installed_app_id@);
                assert(pushed == before_push.push(pushed_entry));
            }
        }
        Ok(app_ws)
    }

    /// Call a zome function through an app client for the given installed
    /// app ID, reconnecting when the connection turns out to be lost.
    ///
    /// Up to three attempts are made: a failure to connect retries without
    /// the cached port assumptions, a transport failure during the call
    /// drops the pooled entry and retries, and any other error returns
    /// immediately. After three fruitless attempts the upstream is reported
    /// unavailable; a transport error never escapes.
    pub fn call<T: AdminTransport + AppTransport>(
        &mut self,
        admin: &mut AdminConn,
        t: &mut T,
        installed_app_id: &String,
        cell_id: &CellId,
        zome_name: &String,
        fn_name: &String,
        payload: &Vec<u8>,
    ) -> (r: HcHttpGatewayResult<Vec<u8>>)
        requires
            old(self).wf(),
            lookup_fns(old(self).configuration.allowed_fns@, installed_app_id@) is Some,
        ensures
            final(self).wf(),
            final(self).configuration == old(self).configuration,
            r matches Err(e) ==> (e matches HcHttpGatewayError::UpstreamUnavailable || (
            e matches HcHttpGatewayError::HolochainError(ce) && !is_transport_error(ce))),
    {
        let mut attempt: usize = 0;
        while attempt < 3
            invariant
                self.wf(),
                self.configuration == old(self).configuration,
                lookup_fns(self.configuration.allowed_fns@, installed_app_id@) is Some,
                attempt <= 3,
            decreases 3 - attempt,
        {
            let app_ws = match self.get_or_connect_app_client(admin, t, installed_app_id) {
                Ok(ws) => ws,
                Err(HcHttpGatewayError::UpstreamUnavailable) => {
                    // We tried and failed to open a new connection. The
                    // cached port was cleared; retry without it.
                    attempt = attempt + 1;
                    continue ;
                },
                Err(e) => {
                    return Err(e);
                },
            };
            match t.call_zome_function(app_ws, cell_id, zome_name, fn_name, payload) {
                Ok(response) => {
                    return Ok(response);
                },
                Err(ce) => {
                    if ce.is_transport() {
                        // The pooled connection is no longer valid: drop it
                        // and reconnect.
                        self.remove_app_client(installed_app_id);
                        attempt = attempt + 1;
                        continue ;
                    } else {
                        return Err(HcHttpGatewayError::HolochainError(ce));
                    }
                },
            }
        }
        // Nothing but connection and transport failures in three attempts.
        Err(HcHttpGatewayError::UpstreamUnavailable)
    }
}

/// The shape of the pool after a fresh connection for `id` was inserted: the
/// new entry is appended, and when the bound is exceeded an oldest entry of
/// the extended pool is removed.
pub open spec fn insert_outcome(
    olde: Seq<(String, AppWebsocketWithState)>,
    newe: Seq<(String, AppWebsocketWithState)>,
    id: Seq<char>,
    c: u64,
    max: int,
) -> bool {
    exists|x: (String, AppWebsocketWithState)|
        #![auto]
        x.0@ == id && x.1.app_ws == c && {
            let pushed = olde.push(x);
            if pushed.len() <= max {
                newe == pushed
            } else {
                exists|i: int|
                    0 <= i < pushed.len() && newe == pushed.remove(i) && (forall|j: int|
                        0 <= j < pushed.len() && j != i ==> !entry_older(
                            #[trigger] pushed[j],
                            pushed[i],
                        ))
            }
        }
}

/// The first qualifying app interface: one whose application restriction, if
/// any, names this application, and whose origin allow-list accepts the
/// gateway's origin tag.
pub open spec fn iface_matches(f: AppInterfaceInfo, id: Seq<char>) -> bool {
    (match f.installed_app_id {
        Some(s) => s@ == id,
        None => true,
    }) && f.allowed_origins.allows("hc-http-gw"@)
}

/// The port of the first qualifying app interface, if any.
pub open spec fn select_iface(s: Seq<AppInterfaceInfo>, id: Seq<char>) -> Option<u16>
    decreases s.len(),
{
    if s.len() == 0 {
        None
    } else if iface_matches(s[0], id) {
        Some(s[0].port)
    } else {
        select_iface(s.skip(1), id)
    }
}

/// Pick the first app interface that the gateway can use for this
/// application.
fn select_app_interface(interfaces: &Vec<AppInterfaceInfo>, installed_app_id: &String) -> (r:
    Option<u16>)
    ensures
        r == select_iface(interfaces@, installed_app_id@),
{
    let n = interfaces.len();
    let mut k: usize = 0;
    proof {
        assert(interfaces@.skip(0) =~= interfaces@);
    }
    while k < n
        invariant
            n == interfaces@.len(),
            0 <= k <= n,
            select_iface(interfaces@, installed_app_id@) == select_iface(
                interfaces@.skip(k as int),
                installed_app_id@,
            ),
        decreases n - k,
    {
        proof {
            assert(interfaces@.skip(k as int)[0] == interfaces@[k as int]);
            assert(interfaces@.skip(k as int).skip(1) =~= interfaces@.skip(k + 1 as int));
        }
        let restricted_ok = match &interfaces[k].installed_app_id {
            Some(for_app_id) => str_eq(for_app_id.as_str(), installed_app_id.as_str()),
            None => true,
        };
        let matches_iface = restricted_ok && interfaces[k].allowed_origins.is_allowed(
            HTTP_GW_ORIGIN,
        );
        if matches_iface {
            return Some(interfaces[k].port);
        }
        k = k + 1;
    }
    None
}

/// The views of a list of cell ids.
pub open spec fn cell_id_views(v: Seq<CellId>) -> Seq<crate::holochain::CellIdV> {
    v.map_values(|c: CellId| c@)
}

/// The cell ids of the provisioned cells, in order.
pub open spec fn provisioned_of(cells: Seq<crate::holochain::CellInfoV>) -> Seq<
    crate::holochain::CellIdV,
>
    decreases cells.len(),
{
    if cells.len() == 0 {
        Seq::empty()
    } else {
        match cells[0] {
            crate::holochain::CellInfoV::Provisioned(c) => seq![c] + provisioned_of(cells.skip(1)),
            crate::holochain::CellInfoV::Other => provisioned_of(cells.skip(1)),
        }
    }
}

/// Collect the cell ids of the provisioned cells.
fn collect_provisioned(cells: &Vec<CellInfo>) -> (r: Vec<CellId>)
    ensures
        cell_id_views(r@) == provisioned_of(cells@.map_values(|c: CellInfo| c@)),
{
    let ghost views = cells@.map_values(|c: CellInfo| c@);
    let n = cells.len();
    let mut out: Vec<CellId> = Vec::new();
    let mut i: usize = 0;
    proof {
        assert(views.skip(0) =~= views);
        assert(cell_id_views(out@) =~= Seq::<crate::holochain::CellIdV>::empty());
        assert(cell_id_views(out@) + provisioned_of(views) =~= provisioned_of(views));
    }
    while i < n
        invariant
            views == cells@.map_values(|c: CellInfo| c@),
            n == cells@.len(),
            0 <= i <= n,
            cell_id_views(out@) + provisioned_of(views.skip(i as int)) == provisioned_of(views),
        decreases n - i,
    {
        proof {
            assert(views.skip(i as int)[0] == views[i as int]);
            assert(views[i as int] == cells@[i as int]@);
            assert(views.skip(i as int).skip(1) =~= views.skip(i + 1 as int));
        }
        let ghost acc0 = cell_id_views(out@);
        match &cells[i] {
            CellInfo::Provisioned(c) => {
                out.push(CellId { dna_hash: c.dna_hash.clone(), agent_key: c.agent_key.clone() });
                proof {
                    let cv = cells@[i as int]@->Provisioned_0;
                    assert(cell_id_views(out@) =~= acc0.push(cv));
                    assert(acc0.push(cv) + provisioned_of(views.skip(i + 1 as int)) =~= acc0 + (
                    seq![cv] + provisioned_of(views.skip(i + 1 as int))));
                }
            },
            CellInfo::Other => {},
        }
        i = i + 1;
    }
    proof {
        assert(views.skip(n as int) =~= Seq::<crate::holochain::CellInfoV>::empty());
        assert(cell_id_views(out@) + provisioned_of(views.skip(n as int)) =~= cell_id_views(out@));
    }
    out
}

/// The outcome of one attempt of the pool's call loop, as the retry logic
/// classifies it.
pub enum PoolAttemptOutcome {
    /// No connection could be established.
    ConnectFailed,
    /// The call went through and succeeded.
    Success,
    /// The call failed at the transport layer.
    TransportFailed,
    /// The call failed with a non-retryable error.
    OtherError,
}

/// Whether an outcome ends the call loop: a success or a non-retryable
/// error returns immediately, only connection and transport failures retry.
pub open spec fn pool_outcome_final(o: PoolAttemptOutcome) -> bool {
    o matches PoolAttemptOutcome::Success || o matches PoolAttemptOutcome::OtherError
}

/// How many attempts the pool's call loop makes when the successive attempts
/// have the given outcomes and `budget` attempts are left: it stops at the
/// first final outcome, or when the budget is exhausted.
pub open spec fn pool_attempts_used(outcomes: Seq<PoolAttemptOutcome>, budget: int) -> int
    decreases outcomes.len(),
{
    if budget <= 0 || outcomes.len() == 0 {
        0
    } else if pool_outcome_final(outcomes[0]) {
        1
    } else {
        1 + pool_attempts_used(outcomes.skip(1), budget - 1)
    }
}

/// The number of successes among the first `k` outcomes.
pub open spec fn successes_among(outcomes: Seq<PoolAttemptOutcome>, k: int) -> int
    decreases outcomes.len(),
{
    if k <= 0 || outcomes.len() == 0 {
        0
    } else {
        (match outcomes[0] {
            PoolAttemptOutcome::Success => 1int,
            _ => 0int,
        }) + successes_among(outcomes.skip(1), k - 1)
    }
}

/// Law: the pool makes at most three application-call attempts per call.
/// Whatever the outcomes of the successive attempts are, the call loop with
/// its budget of three consumes at most three of them.
pub proof fn lemma_pool_retry_bounded(outcomes: Seq<PoolAttemptOutcome>)
    ensures
        pool_attempts_used(outcomes, 3) <= 3,
{
    lemma_pool_attempts_le_budget(outcomes, 3);
}

/// A call loop with `budget` attempts left consumes at most `budget`
/// outcomes.
proof fn lemma_pool_attempts_le_budget(outcomes: Seq<PoolAttemptOutcome>, budget: int)
    ensures
        pool_attempts_used(outcomes, budget) <= if budget >= 0 {
            budget
        } else {
            0
        },
    decreases outcomes.len(),
{
    if budget > 0 && outcomes.len() > 0 && !pool_outcome_final(outcomes[0]) {
        lemma_pool_attempts_le_budget(outcomes.skip(1), budget - 1);
    }
}

/// Law: for every accepted request, at most one upstream call succeeds. The
/// call loop stops at the first success, so among the attempts it consumes
/// there is at most one successful one.
pub proof fn lemma_at_most_one_success(outcomes: Seq<PoolAttemptOutcome>, budget: int)
    ensures
        successes_among(outcomes, pool_attempts_used(outcomes, budget)) <= 1,
    decreases outcomes.len(),
{
    if budget > 0 && outcomes.len() > 0 {
        if pool_outcome_final(outcomes[0]) {
            lemma_successes_zero(outcomes.skip(1), 0);
        } else {
            lemma_at_most_one_success(outcomes.skip(1), budget - 1);
        }
    }
}

/// No successes are counted in an empty prefix.
proof fn lemma_successes_zero(outcomes: Seq<PoolAttemptOutcome>, k: int)
    requires
        k <= 0,
    ensures
        successes_among(outcomes, k) == 0,
{
}

} // verus!
