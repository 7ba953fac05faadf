//! Selection of the application that a request targets.
//!
//! A request names a network identifier (a DNA hash in canonical text form)
//! and an application identifier. The gateway keeps a cached list of the
//! applications installed on the conductor and picks the unique application
//! that matches both identifiers; on a cache miss the list is refreshed over
//! the administrative channel.

use vstd::prelude::*;
use crate::config::str_eq;
use crate::holochain::{AdminRequest, AdminResponse, AdminTransport, AppInfo, AppInfoV, CellId, CellInfo, CellInfoV};
use crate::admin_conn::AdminConn;
use crate::config::AllowedAppIds;

verus! {

/// Why no valid application could be selected for a request.
#[derive(Debug, Clone, Copy, PartialEq, Eq, Structural)]
pub enum AppSelectionError {
    /// No installed application matches the request.
    NotInstalled,
    /// A matching application exists but is not in the allow list.
    NotAllowed,
    /// Several installed applications match, so none can be chosen.
    MultipleMatching,
}

/// Whether an application descriptor matches a request: it is installed
/// under the requested identifier and has a provisioned cell on the
/// requested network.
pub open spec fn app_matches(a: AppInfoV, dna_hash: Seq<char>, coord: Seq<char>) -> bool {
    a.installed_app_id == coord && exists|i: int|
        0 <= i < a.cell_info.len() && ((#[trigger] a.cell_info[i]) matches CellInfoV::Provisioned(
            c,
        ) && c.dna_hash == dna_hash)
}

/// How many descriptors of the list match the request.
pub open spec fn count_matches(apps: Seq<AppInfoV>, dna_hash: Seq<char>, coord: Seq<char>) -> int
    decreases apps.len(),
{
    if apps.len() == 0 {
        0
    } else {
        (if app_matches(apps[0], dna_hash, coord) {
            1int
        } else {
            0int
        }) + count_matches(apps.skip(1), dna_hash, coord)
    }
}

/// The views of a list of application descriptors.
pub open spec fn app_views(apps: Seq<AppInfo>) -> Seq<AppInfoV> {
    apps.map_values(|a: AppInfo| a@)
}

/// Whether this descriptor matches the request.
fn app_matches_exec(a: &AppInfo, dna_hash: &str, coord: &str) -> (r: bool)
    ensures
        r == app_matches(a@, dna_hash@, coord@),
{
    if !str_eq(a.installed_app_id.as_str(), coord) {
        return false;
    }
    let n = a.cell_info.len();
    let mut i: usize = 0;
    while i < n
        invariant
            a.installed_app_id@ == coord@,
            n == a.cell_info@.len(),
            0 <= i <= n,
            forall|j: int|
                0 <= j < i ==> !((#[trigger] a@.cell_info[j]) matches CellInfoV::Provisioned(c)
                    && c.dna_hash == dna_hash@),
        decreases n - i,
    {
        proof {
            assert(a@.cell_info[i as int] == a.cell_info@[i as int]@);
        }
        match &a.cell_info[i] {
            CellInfo::Provisioned(cell) => {
                if str_eq(cell.dna_hash.as_str(), dna_hash) {
                    proof {
                        assert((a@.cell_info[i as int]) matches CellInfoV::Provisioned(c)
                            && c.dna_hash == dna_hash@);
                    }
                    return true;
                }
            },
            CellInfo::Other => {},
        }
        i = i + 1;
    }
    false
}

proof fn lemma_count_matches_skip(
    apps: Seq<AppInfoV>,
    dna_hash: Seq<char>,
    coord: Seq<char>,
    i: int,
)
    requires
        0 <= i < apps.len(),
    ensures
        count_matches(apps.skip(i), dna_hash, coord) == (if app_matches(apps[i], dna_hash, coord) {
            1int
        } else {
            0int
        }) + count_matches(apps.skip(i + 1), dna_hash, coord),
{
    assert(apps.skip(i)[0] == apps[i]);
    assert(apps.skip(i).skip(1) =~= apps.skip(i + 1));
}

proof fn lemma_count_matches_nonneg(apps: Seq<AppInfoV>, dna_hash: Seq<char>, coord: Seq<char>)
    ensures
        count_matches(apps, dna_hash, coord) >= 0,
    decreases apps.len(),
{
    if apps.len() > 0 {
        lemma_count_matches_nonneg(apps.skip(1), dna_hash, coord);
    }
}

/// Return the unique matching descriptor of the list: its index when exactly
/// one descriptor matches, and a typed error when none or several do.
pub fn choose_unique_app(dna_hash: &str, coordinator_identifier: &str, installed_apps: &Vec<
    AppInfo,
>) -> (r: Result<usize, AppSelectionError>)
    ensures
        count_matches(app_views(installed_apps@), dna_hash@, coordinator_identifier@) == 0
            <==> r == Err::<usize, _>(AppSelectionError::NotInstalled),
        count_matches(app_views(installed_apps@), dna_hash@, coordinator_identifier@) >= 2
            <==> r == Err::<usize, _>(AppSelectionError::MultipleMatching),
        count_matches(app_views(installed_apps@), dna_hash@, coordinator_identifier@) == 1
            <==> r is Ok,
        r matches Ok(i) ==> i < installed_apps@.len() && app_matches(
            installed_apps@[i as int]@,
            dna_hash@,
            coordinator_identifier@,
        ) && count_matches(app_views(installed_apps@), dna_hash@, coordinator_identifier@) == 1,
{
    let ghost views = app_views(installed_apps@);
    let n = installed_apps.len();
    let mut i: usize = 0;
    let mut found: usize = n;
    let mut count: usize = 0;
    proof {
        assert(views.skip(0) =~= views);
        lemma_count_matches_nonneg(views, dna_hash@, coordinator_identifier@);
    }
    while i < n
        invariant
            views == app_views(installed_apps@),
            n == installed_apps@.len(),
            0 <= i <= n,
            count <= i,
            count_matches(views, dna_hash@, coordinator_identifier@) == count + count_matches(
                views.skip(i as int),
                dna_hash@,
                coordinator_identifier@,
            ),
            count == 0 ==> found == n,
            count >= 1 ==> (found < i && app_matches(
                views[found as int],
                dna_hash@,
                coordinator_identifier@,
            )),
        decreases n - i,
    {
        proof {
            lemma_count_matches_skip(views, dna_hash@, coordinator_identifier@, i as int);
            assert(views[i as int] == installed_apps@[i as int]@);
        }
        if app_matches_exec(&installed_apps[i], dna_hash, coordinator_identifier) {
            if count == 0 {
                found = i;
            }
            count = count + 1;
        }
        i = i + 1;
    }
    proof {
        assert(views.skip(n as int) =~= Seq::<AppInfoV>::empty());
        lemma_count_matches_nonneg(views.skip(n as int), dna_hash@, coordinator_identifier@);
    }
    if count == 0 {
        Err(AppSelectionError::NotInstalled)
    } else if count >= 2 {
        Err(AppSelectionError::MultipleMatching)
    } else {
        Ok(found)
    }
}

/// Copy an application descriptor, field by field.
fn clone_app_info(a: &AppInfo) -> (r: AppInfo)
    ensures
        r@ == a@,
{
    let n = a.cell_info.len();
    let mut cells: Vec<CellInfo> = Vec::new();
    let mut i: usize = 0;
    while i < n
        invariant
            n == a.cell_info@.len(),
            0 <= i <= n,
            cells@.len() == i,
            forall|j: int| 0 <= j < i ==> #[trigger] cells@[j]@ == a.cell_info@[j]@,
        decreases n - i,
    {
        match &a.cell_info[i] {
            CellInfo::Provisioned(c) => {
                cells.push(
                    CellInfo::Provisioned(
                        CellId { dna_hash: c.dna_hash.clone(), agent_key: c.agent_key.clone() },
                    ),
                );
            },
            CellInfo::Other => {
                cells.push(CellInfo::Other);
            },
        }
        i = i + 1;
    }
    let r = AppInfo { installed_app_id: a.installed_app_id.clone(), cell_info: cells };
    proof {
        assert(r@.cell_info =~= a@.cell_info);
        assert(r@.installed_app_id == a@.installed_app_id);
    }
    r
}

/// Return the descriptor of the matching valid app if unique.
///
/// The returned app is installed under the given identifier, has a
/// provisioned cell with the given DNA hash, and is in the allow list. When
/// the cached list holds no match at all, a fresh list of running
/// applications is fetched over the administrative channel, and a non-empty
/// answer replaces the cache before the search is repeated; an ambiguous
/// cache is reported as it is, without a refresh.
pub fn try_get_valid_app<T: AdminTransport>(
    dna_hash: &String,
    coordinator_identifier: &String,
    installed_apps: &mut Vec<AppInfo>,
    allowed_apps: &AllowedAppIds,
    admin: &mut AdminConn,
    t: &mut T,
) -> (r: Result<AppInfo, AppSelectionError>)
    ensures
        count_matches(app_views(old(installed_apps)@), dna_hash@, coordinator_identifier@) != 0
            ==> final(installed_apps)@ == old(installed_apps)@,
        count_matches(app_views(old(installed_apps)@), dna_hash@, coordinator_identifier@) >= 2
            ==> r == Err::<AppInfo, _>(AppSelectionError::MultipleMatching),
        match r {
            Ok(app) => app_matches(app@, dna_hash@, coordinator_identifier@) && count_matches(
                app_views(final(installed_apps)@),
                dna_hash@,
                coordinator_identifier@,
            ) == 1 && allowed_apps.allows(app@.installed_app_id) && (exists|i: int|
                0 <= i < final(installed_apps)@.len()
                    && (#[trigger] final(installed_apps)@[i]@) == app@),
            Err(AppSelectionError::NotAllowed) => count_matches(
                app_views(final(installed_apps)@),
                dna_hash@,
                coordinator_identifier@,
            ) == 1 && (exists|i: int|
                0 <= i < final(installed_apps)@.len() && app_matches(
                    #[trigger] final(installed_apps)@[i]@,
                    dna_hash@,
                    coordinator_identifier@,
                ) && !allowed_apps.allows(final(installed_apps)@[i]@.installed_app_id)),
            Err(AppSelectionError::NotInstalled) => count_matches(
                app_views(final(installed_apps)@),
                dna_hash@,
                coordinator_identifier@,
            ) != 1,
            Err(AppSelectionError::MultipleMatching) => count_matches(
                app_views(final(installed_apps)@),
                dna_hash@,
                coordinator_identifier@,
            ) >= 2,
        },
{
    let found: usize = match choose_unique_app(
        dna_hash.as_str(),
        coordinator_identifier.as_str(),
        installed_apps,
    ) {
        Ok(i) => i,
        Err(AppSelectionError::MultipleMatching) => {
            // The cache is ambiguous; no refresh can make it less so.
            return Err(AppSelectionError::MultipleMatching);
        },
        Err(_) => {
            // The cache holds no match: refresh it from the conductor.
            proof {
                lemma_count_matches_nonneg(
                    app_views(installed_apps@),
                    dna_hash@,
                    coordinator_identifier@,
                );
                assert(count_matches(
                    app_views(installed_apps@),
                    dna_hash@,
                    coordinator_identifier@,
                ) == 0);
            }
            let new_installed_apps: Vec<AppInfo> = match admin.call(
                t,
                &AdminRequest::ListApps { running_only: true },
            ) {
                Ok(AdminResponse::Apps(apps)) => apps,
                _ => Vec::new(),
            };
            if new_installed_apps.len() > 0 {
                *installed_apps = new_installed_apps;
                match choose_unique_app(
                    dna_hash.as_str(),
                    coordinator_identifier.as_str(),
                    installed_apps,
                ) {
                    Ok(i) => i,
                    Err(e) => {
                        proof {
                            lemma_count_matches_nonneg(
                                app_views(installed_apps@),
                                dna_hash@,
                                coordinator_identifier@,
                            );
                            assert(e == AppSelectionError::NotInstalled
                                || e == AppSelectionError::MultipleMatching);
                        }
                        return Err(e);
                    },
                }
            } else {
                // No answer, or an empty one: the app cannot be found.
                return Err(AppSelectionError::NotInstalled);
            }
        },
    };
    let app_info = clone_app_info(&installed_apps[found]);
    proof {
        assert(app_views(installed_apps@)[found as int] == installed_apps@[found as int]@);
    }
    if !allowed_apps.contains(app_info.installed_app_id.as_str()) {
        proof {
            assert(app_matches(installed_apps@[found as int]@, dna_hash@, coordinator_identifier@));
        }
        return Err(AppSelectionError::NotAllowed);
    }
    Ok(app_info)
}

} // verus!
