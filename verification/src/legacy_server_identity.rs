//! Brings a store from before addresses of servers were canonical into order: servers that differ
//! only in the spelling of their address become one, and what refers to them follows.

use crate::decimal;
use crate::server_url::{self, InvalidUrl, ServerUrl};
use std::collections::HashMap;
use vstd::prelude::*;
use vstd::string::*;

verus! {

broadcast use vstd::std_specs::hash::group_hash_axioms;

/// A stored server, as its row has it.
pub struct StoredServer {
    pub id: i64,
    pub url: String,
}

/// A stored server with the canonical form of its address.
#[derive(Debug)]
pub struct LegacyServer {
    pub id: i64,
    pub canonical_url: String,
}

/// Which table of mappings a row belongs to.
#[derive(Debug, Clone, Copy, PartialEq, Eq, Structural)]
pub enum MappingKind {
    /// Mappings of users to their accounts on servers.
    Server,
    /// Mappings of virtual media identifiers to items of servers.
    Media,
}

/// Why a store cannot be brought into order.
#[derive(Debug)]
pub enum LegacyError {
    /// The address of a server cannot be read.
    InvalidServerUrl { server_id: i64, url: String, source: InvalidUrl },
    /// A mapping names a server that is not stored.
    MissingCanonicalUrl { server_id: i64 },
    /// The address in a mapping cannot be read.
    InvalidMappingUrl { kind: MappingKind, mapping_id: i64, url: String, source: InvalidUrl },
    /// A mapping does not name a stored server though it should.
    MissingServerId { kind: MappingKind, mapping_id: i64 },
}

/// What an error says.
pub open spec fn error_text(error: LegacyError) -> Seq<char> {
    match error {
        LegacyError::InvalidServerUrl { server_id, url, .. } =>
            "Invalid server URL in database for server id "@ + decimal::decimal(server_id as int)
            + ": "@ + url@,
        LegacyError::MissingCanonicalUrl { server_id } => "Missing canonical URL for server id "@
            + decimal::decimal(server_id as int),
        LegacyError::InvalidMappingUrl { kind: MappingKind::Server, mapping_id, url, .. } =>
            "Invalid server mapping URL in database for mapping "@ + decimal::decimal(
            mapping_id as int,
        ) + ": "@ + url@,
        LegacyError::InvalidMappingUrl { kind: MappingKind::Media, mapping_id, url, .. } =>
            "Invalid media mapping URL in database for mapping "@ + decimal::decimal(
            mapping_id as int,
        ) + ": "@ + url@,
        LegacyError::MissingServerId { kind: MappingKind::Server, mapping_id } =>
            "Missing server id for mapping "@ + decimal::decimal(mapping_id as int),
        LegacyError::MissingServerId { kind: MappingKind::Media, mapping_id } =>
            "Missing server id for media mapping "@ + decimal::decimal(mapping_id as int),
    }
}

/// A text with a number behind it.
fn with_number(head: &str, number: i64) -> (r: String)
    ensures
        r@ == head@ + decimal::decimal(number as int),
{
    let mut line = head.to_owned();
    line.append(decimal::decimal_text(number).as_str());
    line
}

impl LegacyError {
    /// What the error says.
    pub fn message(&self) -> (r: String)
        ensures
            r@ == error_text(*self),
    {
        match self {
            LegacyError::InvalidServerUrl { server_id, url, .. } => {
                let mut line = with_number(
                    "Invalid server URL in database for server id ",
                    *server_id,
                );
                line.append(": ");
                line.append(url.as_str());
                line
            },
            LegacyError::MissingCanonicalUrl { server_id } => with_number(
                "Missing canonical URL for server id ",
                *server_id,
            ),
            LegacyError::InvalidMappingUrl { kind, mapping_id, url, .. } => {
                let mut line = match kind {
                    MappingKind::Server => with_number(
                        "Invalid server mapping URL in database for mapping ",
                        *mapping_id,
                    ),
                    MappingKind::Media => with_number(
                        "Invalid media mapping URL in database for mapping ",
                        *mapping_id,
                    ),
                };
                line.append(": ");
                line.append(url.as_str());
                line
            },
            LegacyError::MissingServerId { kind, mapping_id } => match kind {
                MappingKind::Server => with_number("Missing server id for mapping ", *mapping_id),
                MappingKind::Media => with_number(
                    "Missing server id for media mapping ",
                    *mapping_id,
                ),
            },
        }
    }
}

/// Whether servers are the stored ones, with the canonical forms of their addresses.
pub open spec fn are_loaded(rows: Seq<StoredServer>, servers: Seq<LegacyServer>) -> bool {
    &&& servers.len() == rows.len()
    &&& forall|i: int|
        0 <= i < rows.len() ==> (#[trigger] servers[i]).id == rows[i].id && server_url::canonical(
            rows[i].url@,
        ) == Ok::<Seq<char>, url::ParseError>(servers[i].canonical_url@)
}

/// Whether an error names the first stored server whose address cannot be read.
pub open spec fn is_load_error(rows: Seq<StoredServer>, error: LegacyError) -> bool {
    exists|i: int|
        {
            &&& 0 <= i < rows.len()
            &&& server_url::canonical((#[trigger] rows[i]).url@) is Err
            &&& forall|j: int| 0 <= j < i ==> server_url::canonical((#[trigger] rows[j]).url@) is Ok
            &&& error matches LegacyError::InvalidServerUrl { server_id, url, source }
            &&& server_id == rows[i].id
            &&& url@ == rows[i].url@
            &&& server_url::canonical(rows[i].url@) == Err::<Seq<char>, _>(source.0)
        }
}

/// Whether the addresses of servers are canonical if they are those of HTTP servers
/// whose hosts can be read.
pub open spec fn are_stable_servers(servers: Seq<LegacyServer>) -> bool {
    forall|i: int|
        0 <= i < servers.len() ==> server_url::is_stable((#[trigger] servers[i]).canonical_url@)
}

/// Reads the canonical forms of the addresses of all servers; the first address that cannot be
/// read is reported.
pub fn load_servers(rows: &[StoredServer]) -> (r: Result<Vec<LegacyServer>, LegacyError>)
    ensures
        match r {
            Ok(servers) => are_loaded(rows@, servers@) && are_stable_servers(servers@),
            Err(error) => is_load_error(rows@, error),
        },
{
    let mut servers: Vec<LegacyServer> = Vec::new();
    let mut i: usize = 0;
    while i < rows.len()
        invariant
            i <= rows.len(),
            servers.len() == i,
            forall|j: int|
                0 <= j < i ==> (#[trigger] servers[j]).id == rows[j].id && server_url::canonical(
                    rows[j].url@,
                ) == Ok::<Seq<char>, url::ParseError>(servers[j].canonical_url@),
            are_stable_servers(servers@),
        decreases rows.len() - i,
    {
        match ServerUrl::canonicalize(rows[i].url.as_str()) {
            Ok(canonical_url) => {
                servers.push(LegacyServer { id: rows[i].id, canonical_url });
            },
            Err(source) => {
                proof {
                    assert forall|j: int| 0 <= j < i implies server_url::canonical(
                        (#[trigger] rows@[j]).url@,
                    ) is Ok by {
                        assert(servers[j].id == rows[j].id);
                    }
                    assert(server_url::canonical(rows@[i as int].url@) is Err);
                }
                return Err(
                    LegacyError::InvalidServerUrl {
                        server_id: rows[i].id,
                        url: rows[i].url.clone(),
                        source,
                    },
                );
            },
        }
        i = i + 1;
    }
    Ok(servers)
}

/// Whether `id` is the smallest identifier of a server with an address.
pub open spec fn is_canonical_id(servers: Seq<LegacyServer>, url: Seq<char>, id: i64) -> bool {
    &&& exists|i: int|
        0 <= i < servers.len() && (#[trigger] servers[i]).id == id && servers[i].canonical_url@
            == url
    &&& forall|j: int|
        0 <= j < servers.len() && (#[trigger] servers[j]).canonical_url@ == url ==> id
            <= servers[j].id
}

/// Whether no later server has the identifier of the one at `i`.
pub open spec fn is_last_with_id(servers: Seq<LegacyServer>, i: int) -> bool {
    forall|j: int| i < j < servers.len() ==> (#[trigger] servers[j]).id != servers[i].id
}

/// Whether some server has an identifier.
pub open spec fn has_id(servers: Seq<LegacyServer>, id: i64) -> bool {
    exists|i: int| 0 <= i < servers.len() && (#[trigger] servers[i]).id == id
}

/// Each identifier led to the smallest identifier with the same address.
pub open spec fn are_canonical_ids(servers: Seq<LegacyServer>, ids: Map<i64, i64>) -> bool {
    &&& forall|id: i64| #[trigger] ids.contains_key(id) <==> has_id(servers, id)
    &&& forall|i: int|
        0 <= i < servers.len() && is_last_with_id(servers, i) ==> is_canonical_id(
            servers,
            (#[trigger] servers[i]).canonical_url@,
            ids[servers[i].id],
        )
}

/// Each identifier led to the address of its server.
pub open spec fn are_canonical_urls(servers: Seq<LegacyServer>, urls: Map<i64, String>) -> bool {
    &&& forall|id: i64| #[trigger] urls.contains_key(id) <==> has_id(servers, id)
    &&& forall|i: int|
        0 <= i < servers.len() && is_last_with_id(servers, i) ==> urls[(#[trigger] servers[i]).id]@
            == servers[i].canonical_url@
}

/// The smallest identifier of a server with the address of the server at `at`.
fn smallest_id(servers: &[LegacyServer], at: usize) -> (r: i64)
    requires
        at < servers.len(),
    ensures
        is_canonical_id(servers@, servers[at as int].canonical_url@, r),
{
    let ghost url = servers[at as int].canonical_url@;
    let mut best: i64 = servers[at].id;
    let ghost mut found: int = at as int;
    let mut i: usize = 0;
    while i < servers.len()
        invariant
            i <= servers.len(),
            at < servers.len(),
            url == servers[at as int].canonical_url@,
            0 <= found < servers.len(),
            servers[found].id == best,
            servers[found].canonical_url@ == url,
            forall|j: int|
                0 <= j < i && (#[trigger] servers[j]).canonical_url@ == url ==> best
                    <= servers[j].id,
        decreases servers.len() - i,
    {
        if servers[i].canonical_url == servers[at].canonical_url && servers[i].id < best {
            best = servers[i].id;
            proof {
                found = i as int;
            }
        }
        i = i + 1;
    }
    assert(servers@[found].id == best);
    best
}

/// For each server the smallest identifier of a server with the same address.
pub fn canonical_server_ids(servers: &[LegacyServer]) -> (r: HashMap<i64, i64>)
    ensures
        are_canonical_ids(servers@, r@),
{
    let mut ids: HashMap<i64, i64> = HashMap::new();
    let mut i: usize = 0;
    while i < servers.len()
        invariant
            i <= servers.len(),
            forall|id: i64|
                #[trigger] ids@.contains_key(id) <==> has_id(servers@.take(i as int), id),
            forall|k: int|
                0 <= k < i && is_last_with_id(servers@.take(i as int), k) ==> is_canonical_id(
                    servers@,
                    (#[trigger] servers[k]).canonical_url@,
                    ids@[servers[k].id],
                ),
        decreases servers.len() - i,
    {
        let ghost before = servers@.take(i as int);
        let ghost after = servers@.take(i + 1);
        let ghost known = ids@;
        ids.insert(servers[i].id, smallest_id(servers, i));
        proof {
            lemma_has_id_step(servers@, i as int);
            assert forall|k: int| 0 <= k < i + 1 && is_last_with_id(after, k) implies is_canonical_id(
                servers@,
                (#[trigger] servers[k]).canonical_url@,
                ids@[servers[k].id],
            ) by {
                if k < i {
                    assert(after[i as int].id != after[k].id);
                    assert forall|j: int| k < j < before.len() implies (#[trigger] before[j]).id
                        != before[k].id by {
                        assert(after[j] == before[j]);
                    }
                    assert(is_last_with_id(before, k));
                }
            }
        }
        i = i + 1;
    }
    assert(servers@.take(servers.len() as int) =~= servers@);
    ids
}

proof fn lemma_has_id_step(servers: Seq<LegacyServer>, i: int)
    requires
        0 <= i < servers.len(),
    ensures
        forall|id: i64|
            #[trigger] has_id(servers.take(i + 1), id) <==> has_id(servers.take(i), id)
                || servers[i].id == id,
{
    let before = servers.take(i);
    let after = servers.take(i + 1);
    assert forall|id: i64| #[trigger] has_id(after, id) <==> has_id(before, id) || servers[i].id
        == id by {
        if has_id(after, id) {
            let k = choose|k: int| 0 <= k < after.len() && (#[trigger] after[k]).id == id;
            if k < i {
                assert(before[k].id == id);
            }
        }
        if has_id(before, id) {
            let k = choose|k: int| 0 <= k < before.len() && (#[trigger] before[k]).id == id;
            assert(after[k].id == id);
        }
        if servers[i].id == id {
            assert(after[i].id == id);
        }
    }
}

/// For each server the canonical form of its address.
pub fn canonical_server_urls(servers: &[LegacyServer]) -> (r: HashMap<i64, String>)
    ensures
        are_canonical_urls(servers@, r@),
{
    let mut urls: HashMap<i64, String> = HashMap::new();
    let mut i: usize = 0;
    while i < servers.len()
        invariant
            i <= servers.len(),
            forall|id: i64|
                #[trigger] urls@.contains_key(id) <==> has_id(servers@.take(i as int), id),
            forall|k: int|
                0 <= k < i && is_last_with_id(servers@.take(i as int), k) ==> urls@[(
                #[trigger] servers[k]).id]@ == servers[k].canonical_url@,
        decreases servers.len() - i,
    {
        let ghost before = servers@.take(i as int);
        let ghost after = servers@.take(i + 1);
        urls.insert(servers[i].id, servers[i].canonical_url.clone());
        proof {
            lemma_has_id_step(servers@, i as int);
            assert forall|k: int| 0 <= k < i + 1 && is_last_with_id(after, k) implies urls@[(
            #[trigger] servers[k]).id]@ == servers[k].canonical_url@ by {
                if k < i {
                    assert(after[i as int].id != after[k].id);
                    assert forall|j: int| k < j < before.len() implies (#[trigger] before[j]).id
                        != before[k].id by {
                        assert(after[j] == before[j]);
                    }
                    assert(is_last_with_id(before, k));
                }
            }
        }
        i = i + 1;
    }
    assert(servers@.take(servers.len() as int) =~= servers@);
    urls
}

/// The administrator account of a server.
pub struct AdminRow {
    pub id: i64,
    pub server_id: i64,
}

/// How the administrator accounts change.
pub struct AdminMerge {
    /// The accounts to delete, before any is changed.
    pub duplicate_admin_ids: Vec<i64>,
    /// For each server the account that is its own afterwards.
    pub admin_by_server: HashMap<i64, i64>,
}

/// For each server that remains the account it is given: the one with the smallest identifier.
pub open spec fn merged_admins(rows: Seq<AdminRow>, ids: Map<i64, i64>) -> Map<i64, i64>
    decreases rows.len(),
{
    if rows.len() == 0 {
        Map::empty()
    } else {
        let known = merged_admins(rows.drop_last(), ids);
        let row = rows.last();
        if !ids.contains_key(row.server_id) {
            known
        } else if known.contains_key(ids[row.server_id]) && known[ids[row.server_id]] <= row.id {
            known
        } else {
            known.insert(ids[row.server_id], row.id)
        }
    }
}

/// The accounts that come after another one for the same server, in their order.
pub open spec fn surplus_admins(rows: Seq<AdminRow>, ids: Map<i64, i64>) -> Seq<i64>
    decreases rows.len(),
{
    if rows.len() == 0 {
        Seq::empty()
    } else {
        let row = rows.last();
        let surplus = surplus_admins(rows.drop_last(), ids);
        if ids.contains_key(row.server_id) && merged_admins(rows.drop_last(), ids).contains_key(
            ids[row.server_id],
        ) {
            surplus.push(row.id)
        } else {
            surplus
        }
    }
}

/// Merges the administrator accounts of servers that become one. Accounts of servers that are
/// not stored are left alone.
pub fn merge_server_admins(rows: &[AdminRow], canonical_server_ids: &HashMap<i64, i64>) -> (r:
    AdminMerge)
    ensures
        r.admin_by_server@ == merged_admins(rows@, canonical_server_ids@),
        r.duplicate_admin_ids@ == surplus_admins(rows@, canonical_server_ids@),
{
    let mut admin_by_server: HashMap<i64, i64> = HashMap::new();
    let mut duplicate_admin_ids: Vec<i64> = Vec::new();
    let mut i: usize = 0;
    assert(rows@.take(0) =~= Seq::empty());
    while i < rows.len()
        invariant
            i <= rows.len(),
            admin_by_server@ == merged_admins(rows@.take(i as int), canonical_server_ids@),
            duplicate_admin_ids@ == surplus_admins(rows@.take(i as int), canonical_server_ids@),
        decreases rows.len() - i,
    {
        assert(rows@.take(i + 1).drop_last() =~= rows@.take(i as int));
        let admin_id = rows[i].id;
        if let Some(canonical_server_id) = canonical_server_ids.get(&rows[i].server_id) {
            let existing: Option<i64> = match admin_by_server.get(canonical_server_id) {
                Some(existing_admin_id) => Some(*existing_admin_id),
                None => None,
            };
            match existing {
                Some(existing_admin_id) => {
                    duplicate_admin_ids.push(admin_id);
                    if admin_id < existing_admin_id {
                        admin_by_server.insert(*canonical_server_id, admin_id);
                    }
                },
                None => {
                    admin_by_server.insert(*canonical_server_id, admin_id);
                },
            }
        }
        i = i + 1;
    }
    assert(rows@.take(i as int) =~= rows@);
    AdminMerge { duplicate_admin_ids, admin_by_server }
}

/// A stored mapping of either table.
pub struct MappingRow {
    pub id: i64,
    /// The user or the original medium that is mapped.
    pub owner: String,
    pub server_id: Option<i64>,
    pub server_url: String,
}

impl Clone for MappingRow {
    fn clone(&self) -> (r: Self)
        ensures
            r == *self,
    {
        MappingRow {
            id: self.id,
            owner: self.owner.clone(),
            server_id: self.server_id,
            server_url: self.server_url.clone(),
        }
    }
}

/// What a mapping that is kept is changed to.
pub struct MappingUpdate {
    /// The server to set, where the table names servers by identifier.
    pub server_id: Option<i64>,
    pub server_url: String,
}

/// How the mappings of one owner to one server become one.
pub struct MappingMerge {
    pub owner: String,
    pub canonical_url: String,
    /// The mapping that is kept.
    pub canonical_mapping_id: i64,
    /// The mappings that are deleted, before the other one is changed.
    pub duplicate_mapping_ids: Vec<i64>,
    pub update: Option<MappingUpdate>,
}

/// The server that a mapping names, where the table has such a column.
pub open spec fn named_server(has_server_id: bool, row: MappingRow) -> Option<i64> {
    if has_server_id {
        row.server_id
    } else {
        None
    }
}

/// The server that a server becomes.
pub open spec fn merged_server(ids: Map<i64, i64>, server_id: i64) -> i64 {
    if ids.contains_key(server_id) {
        ids[server_id]
    } else {
        server_id
    }
}

/// The canonical address of the server of a mapping: that of the server it names, else that of
/// its own address.
pub open spec fn resolved_url(
    has_server_id: bool,
    row: MappingRow,
    ids: Map<i64, i64>,
    urls: Map<i64, String>,
) -> Option<Seq<char>> {
    match named_server(has_server_id, row) {
        Some(server_id) => if urls.contains_key(merged_server(ids, server_id)) {
            Some(urls[merged_server(ids, server_id)]@)
        } else {
            None
        },
        None => match server_url::canonical(row.server_url@) {
            Ok(url) => Some(url),
            Err(_) => None,
        },
    }
}

/// Whether an error says why the server of a mapping has no canonical address.
pub open spec fn is_unresolved_error(
    kind: MappingKind,
    has_server_id: bool,
    row: MappingRow,
    error: LegacyError,
) -> bool {
    match named_server(has_server_id, row) {
        Some(server_id) => error == (LegacyError::MissingCanonicalUrl { server_id }),
        None => {
            &&& error matches LegacyError::InvalidMappingUrl { kind: k, mapping_id, url, source }
            &&& k == kind
            &&& mapping_id == row.id
            &&& url@ == row.server_url@
            &&& server_url::canonical(row.server_url@) == Err::<Seq<char>, _>(source.0)
        },
    }
}

/// The canonical address of the server of a mapping.
fn resolve_url(
    kind: MappingKind,
    has_server_id: bool,
    row: &MappingRow,
    canonical_server_ids: &HashMap<i64, i64>,
    canonical_server_urls: &HashMap<i64, String>,
) -> (r: Result<String, LegacyError>)
    ensures
        match resolved_url(has_server_id, *row, canonical_server_ids@, canonical_server_urls@) {
            Some(url) => r matches Ok(s) && s@ == url,
            None => r matches Err(error) && is_unresolved_error(kind, has_server_id, *row, error),
        },
        !has_server_id ==> (r matches Ok(s) ==> server_url::is_stable(s@)),
{
    let server_id: Option<i64> = if has_server_id {
        row.server_id
    } else {
        None
    };
    match server_id {
        Some(server_id) => {
            let canonical_server_id: i64 = match canonical_server_ids.get(&server_id) {
                Some(id) => *id,
                None => server_id,
            };
            match canonical_server_urls.get(&canonical_server_id) {
                Some(url) => Ok(url.clone()),
                None => Err(LegacyError::MissingCanonicalUrl { server_id }),
            }
        },
        None => match ServerUrl::canonicalize(row.server_url.as_str()) {
            Ok(url) => Ok(url),
            Err(source) => Err(
                LegacyError::InvalidMappingUrl {
                    kind,
                    mapping_id: row.id,
                    url: row.server_url.clone(),
                    source,
                },
            ),
        },
    }
}

/// The mappings with one more, put behind those with no larger identifier.
pub open spec fn inserted_by_id(rows: Seq<MappingRow>, row: MappingRow) -> Seq<MappingRow>
    decreases rows.len(),
{
    if rows.len() == 0 || rows.last().id <= row.id {
        rows.push(row)
    } else {
        inserted_by_id(rows.drop_last(), row).push(rows.last())
    }
}

/// The mappings by their identifiers; those with the same one keep their order.
pub open spec fn by_id(rows: Seq<MappingRow>) -> Seq<MappingRow>
    decreases rows.len(),
{
    if rows.len() == 0 {
        rows
    } else {
        inserted_by_id(by_id(rows.drop_last()), rows.last())
    }
}

/// What two maps of servers say, and whether a table names servers by identifier.
pub struct Resolution {
    pub has_server_id: bool,
    pub ids: Map<i64, i64>,
    pub urls: Map<i64, String>,
}

/// Whether a mapping is one of an owner to the server with an address.
pub open spec fn is_mapping_of(
    on: Resolution,
    row: MappingRow,
    owner: Seq<char>,
    url: Seq<char>,
) -> bool {
    row.owner@ == owner && resolved_url(on.has_server_id, row, on.ids, on.urls) == Some(url)
}

/// The mappings of an owner to the server with an address, by their identifiers.
pub open spec fn mappings_of(
    on: Resolution,
    rows: Seq<MappingRow>,
    owner: Seq<char>,
    url: Seq<char>,
) -> Seq<MappingRow> {
    by_id(rows.filter(|row: MappingRow| is_mapping_of(on, row, owner, url)))
}

/// Whether the server of the mapping that is kept is known, where the table names servers.
pub open spec fn can_keep(on: Resolution, row: MappingRow) -> bool {
    on.has_server_id ==> (row.server_id matches Some(server_id) && on.ids.contains_key(server_id))
}

/// Whether a merge is the one of some mappings, which are in the order of their identifiers: the
/// first is kept, and refers to the server that its own server becomes.
pub open spec fn is_merge_of(
    on: Resolution,
    members: Seq<MappingRow>,
    merge: MappingMerge,
) -> bool {
    &&& members.len() > 0
    &&& merge.canonical_mapping_id == members[0].id
    &&& merge.duplicate_mapping_ids@ == members.skip(1).map_values(|row: MappingRow| row.id)
    &&& can_keep(on, members[0])
    &&& if on.has_server_id {
        &&& merge.update matches Some(update)
        &&& update.server_id == Some(on.ids[members[0].server_id->0])
        &&& update.server_url@ == merge.canonical_url@
    } else if members[0].server_url@ != merge.canonical_url@ {
        &&& merge.update matches Some(update)
        &&& update.server_id is None
        &&& update.server_url@ == merge.canonical_url@
    } else {
        merge.update is None
    }
}

/// Whether two merges are of the same owner and server.
pub open spec fn same_target(a: MappingMerge, b: MappingMerge) -> bool {
    a.owner@ == b.owner@ && a.canonical_url@ == b.canonical_url@
}

/// Whether a mapping belongs to one of some merges.
pub open spec fn has_merge(on: Resolution, merges: Seq<MappingMerge>, row: MappingRow) -> bool {
    exists|g: int|
        0 <= g < merges.len() && is_mapping_of(
            on,
            row,
            (#[trigger] merges[g]).owner@,
            merges[g].canonical_url@,
        )
}

/// Whether merges are those of all mappings: one for each owner and server.
pub open spec fn are_merges_of(
    on: Resolution,
    rows: Seq<MappingRow>,
    merges: Seq<MappingMerge>,
) -> bool {
    &&& forall|g: int|
        0 <= g < merges.len() ==> is_merge_of(
            on,
            mappings_of(
                on,
                rows,
                (#[trigger] merges[g]).owner@,
                merges[g].canonical_url@,
            ),
            merges[g],
        )
    &&& forall|g: int, h: int|
        0 <= g < h < merges.len() ==> !same_target(#[trigger] merges[g], #[trigger] merges[h])
    &&& forall|i: int| 0 <= i < rows.len() ==> has_merge(on, merges, #[trigger] rows[i])
}

/// Whether an error says why mappings cannot be merged: the first one whose server has no
/// canonical address, or else one that is to be kept and whose server is not known.
pub open spec fn is_merge_error(
    kind: MappingKind,
    on: Resolution,
    rows: Seq<MappingRow>,
    error: LegacyError,
) -> bool {
    if exists|i: int|
        0 <= i < rows.len() && resolved_url(
            on.has_server_id,
            #[trigger] rows[i],
            on.ids,
            on.urls,
        ) is None {
        exists|i: int|
            {
                &&& 0 <= i < rows.len()
                &&& resolved_url(on.has_server_id, #[trigger] rows[i], on.ids, on.urls) is None
                &&& forall|j: int|
                    0 <= j < i ==> resolved_url(
                        on.has_server_id,
                        #[trigger] rows[j],
                        on.ids,
                        on.urls,
                    ) is Some
                &&& is_unresolved_error(kind, on.has_server_id, rows[i], error)
            }
    } else {
        exists|owner: Seq<char>, url: Seq<char>|
            {
                let members = #[trigger] mappings_of(on, rows, owner, url);
                &&& members.len() > 0
                &&& !can_keep(on, members[0])
                &&& error == (LegacyError::MissingServerId { kind, mapping_id: members[0].id })
            }
    }
}

/// The mappings of one owner to one server, as far as they were read.
struct MappingGroup {
    owner: String,
    canonical_url: String,
    members: Vec<MappingRow>,
}

/// Puts a mapping behind those with no larger identifier.
fn insert_by_id(rows: &mut Vec<MappingRow>, row: MappingRow)
    ensures
        final(rows)@ == inserted_by_id(old(rows)@, row),
{
    let ghost before = rows@;
    let mut at: usize = rows.len();
    assert(before.take(at as int) =~= before);
    assert(before.skip(at as int) =~= Seq::empty());
    assert(inserted_by_id(before.take(at as int), row) + before.skip(at as int)
        =~= inserted_by_id(before, row));
    while at > 0 && rows[at - 1].id > row.id
        invariant
            at <= rows.len(),
            rows@ == before,
            inserted_by_id(before.take(at as int), row) + before.skip(at as int) == inserted_by_id(
                before,
                row,
            ),
        decreases at,
    {
        proof {
            let part = before.take(at as int);
            assert(part.drop_last() =~= before.take(at - 1));
            assert(inserted_by_id(part, row) == inserted_by_id(part.drop_last(), row).push(
                part.last(),
            ));
            assert(inserted_by_id(part, row) + before.skip(at as int) =~= inserted_by_id(
                part.drop_last(),
                row,
            ) + before.skip(at - 1));
        }
        at = at - 1;
    }
    proof {
        assert(before.take(at as int).len() == at);
        assert(before.insert(at as int, row) =~= before.take(at as int).push(row) + before.skip(
            at as int,
        ));
    }
    rows.insert(at, row);
}

proof fn lemma_mappings_of_step(
    on: Resolution,
    rows: Seq<MappingRow>,
    i: int,
    owner: Seq<char>,
    url: Seq<char>,
)
    requires
        0 <= i < rows.len(),
    ensures
        mappings_of(on, rows.take(i + 1), owner, url) == if is_mapping_of(
            on,
            rows[i],
            owner,
            url,
        ) {
            inserted_by_id(mappings_of(on, rows.take(i), owner, url), rows[i])
        } else {
            mappings_of(on, rows.take(i), owner, url)
        },
{
    reveal(Seq::filter);
    let is_wanted = |row: MappingRow| is_mapping_of(on, row, owner, url);
    assert(rows.take(i + 1).drop_last() =~= rows.take(i));
    if is_wanted(rows[i]) {
        let wanted = rows.take(i + 1).filter(is_wanted);
        assert(wanted == rows.take(i).filter(is_wanted).push(rows[i]));
        assert(wanted.drop_last() =~= rows.take(i).filter(is_wanted));
    }
}

proof fn lemma_no_mappings_of(
    on: Resolution,
    rows: Seq<MappingRow>,
    owner: Seq<char>,
    url: Seq<char>,
)
    requires
        forall|k: int| 0 <= k < rows.len() ==> !is_mapping_of(on, #[trigger] rows[k], owner, url),
    ensures
        mappings_of(on, rows, owner, url).len() == 0,
    decreases rows.len(),
{
    reveal(Seq::filter);
    if rows.len() > 0 {
        let rest = rows.drop_last();
        assert forall|k: int| 0 <= k < rest.len() implies !is_mapping_of(
            on,
            #[trigger] rest[k],
            owner,
            url,
        ) by {
            assert(rest[k] == rows[k]);
        }
        lemma_no_mappings_of(on, rest, owner, url);
        assert(rows.take(rows.len() as int) =~= rows);
        assert(rows.take(rows.len() - 1) =~= rest);
        lemma_mappings_of_step(on, rows, rows.len() - 1, owner, url);
    }
}

/// Whether a mapping belongs to one of some groups.
spec fn has_group(on: Resolution, groups: Seq<MappingGroup>, row: MappingRow) -> bool {
    exists|g: int|
        0 <= g < groups.len() && is_mapping_of(
            on,
            row,
            (#[trigger] groups[g]).owner@,
            groups[g].canonical_url@,
        )
}

/// Whether groups are those of some mappings.
spec fn are_groups_of(
    on: Resolution,
    rows: Seq<MappingRow>,
    groups: Seq<MappingGroup>,
) -> bool {
    &&& forall|g: int|
        0 <= g < groups.len() ==> {
            &&& (#[trigger] groups[g]).members.len() > 0
            &&& groups[g].members@ == mappings_of(
                on,
                rows,
                groups[g].owner@,
                groups[g].canonical_url@,
            )
        }
    &&& forall|g: int, h: int|
        0 <= g < h < groups.len() ==> (#[trigger] groups[g]).owner@ != (
        #[trigger] groups[h]).owner@ || groups[g].canonical_url@ != groups[h].canonical_url@
    &&& forall|i: int| 0 <= i < rows.len() ==> has_group(on, groups, #[trigger] rows[i])
}

/// Puts a mapping into the group it belongs to, which may be a new one.
fn add_to_group(
    groups: &mut Vec<MappingGroup>,
    row: &MappingRow,
    canonical_url: String,
    Ghost(on): Ghost<Resolution>,
    Ghost(rows): Ghost<Seq<MappingRow>>,
    Ghost(i): Ghost<int>,
)
    requires
        0 <= i < rows.len(),
        *row == rows[i],
        are_groups_of(on, rows.take(i), old(groups)@),
        resolved_url(on.has_server_id, *row, on.ids, on.urls) == Some(canonical_url@),
    ensures
        are_groups_of(on, rows.take(i + 1), final(groups)@),
{
    let ghost before = groups@;
    let ghost done = rows.take(i);
    let ghost now = rows.take(i + 1);
    let mut at: usize = 0;
    while at < groups.len() && !(groups[at].owner == row.owner && groups[at].canonical_url
        == canonical_url)
        invariant
            at <= groups.len(),
            groups@ == before,
            forall|g: int|
                0 <= g < at ==> !((#[trigger] before[g]).owner@ == row.owner@
                    && before[g].canonical_url@ == canonical_url@),
        decreases groups.len() - at,
    {
        at = at + 1;
    }
    if at < groups.len() {
        let mut members: Vec<MappingRow> = Vec::new();
        std::mem::swap(&mut members, &mut groups[at].members);
        insert_by_id(&mut members, row.clone());
        groups[at].members = members;
        proof {
            assert forall|g: int| 0 <= g < groups@.len() implies {
                &&& (#[trigger] groups@[g]).members.len() > 0
                &&& groups@[g].members@ == mappings_of(
                    on,
                    now,
                    groups@[g].owner@,
                    groups@[g].canonical_url@,
                )
            } by {
                lemma_mappings_of_step(on, rows, i, before[g].owner@, before[g].canonical_url@);
                lemma_inserted_by_id(before[g].members@, *row);
            }
            assert forall|k: int| 0 <= k < now.len() implies has_group(
                on,
                groups@,
                #[trigger] now[k],
            ) by {
                if k < i {
                    assert(now[k] == done[k]);
                    assert(has_group(on, before, done[k]));
                    let g = choose|g: int|
                        0 <= g < before.len() && is_mapping_of(
                            on,
                            done[k],
                            (#[trigger] before[g]).owner@,
                            before[g].canonical_url@,
                        );
                    assert(groups@[g].owner@ == before[g].owner@);
                } else {
                    assert(groups@[at as int].owner@ == row.owner@);
                }
            }
        }
    } else {
        let mut members: Vec<MappingRow> = Vec::new();
        members.push(row.clone());
        let group = MappingGroup { owner: row.owner.clone(), canonical_url, members };
        groups.push(group);
        proof {
            assert forall|k: int| 0 <= k < done.len() implies !is_mapping_of(
                on,
                #[trigger] done[k],
                row.owner@,
                canonical_url@,
            ) by {
                assert(has_group(on, before, done[k]));
                let g = choose|g: int|
                    0 <= g < before.len() && is_mapping_of(
                        on,
                        done[k],
                        (#[trigger] before[g]).owner@,
                        before[g].canonical_url@,
                    );
                assert(before[g].owner@ != row.owner@ || before[g].canonical_url@
                    != canonical_url@);
            }
            lemma_no_mappings_of(on, done, row.owner@, canonical_url@);
            lemma_mappings_of_step(on, rows, i, row.owner@, canonical_url@);
            assert(mappings_of(on, now, row.owner@, canonical_url@) =~= seq![*row]);
            assert forall|g: int| 0 <= g < groups@.len() implies {
                &&& (#[trigger] groups@[g]).members.len() > 0
                &&& groups@[g].members@ == mappings_of(
                    on,
                    now,
                    groups@[g].owner@,
                    groups@[g].canonical_url@,
                )
            } by {
                if g < before.len() {
                    assert(groups@[g] == before[g]);
                    lemma_mappings_of_step(on, rows, i, before[g].owner@, before[g].canonical_url@);
                }
            }
            assert forall|g: int, h: int| 0 <= g < h < groups@.len() implies (
            #[trigger] groups@[g]).owner@ != (#[trigger] groups@[h]).owner@
                || groups@[g].canonical_url@ != groups@[h].canonical_url@ by {
                assert(groups@[g] == before[g]);
                if h < before.len() {
                    assert(groups@[h] == before[h]);
                }
            }
            assert forall|k: int| 0 <= k < now.len() implies has_group(
                on,
                groups@,
                #[trigger] now[k],
            ) by {
                if k < i {
                    assert(now[k] == done[k]);
                    assert(has_group(on, before, done[k]));
                    let g = choose|g: int|
                        0 <= g < before.len() && is_mapping_of(
                            on,
                            done[k],
                            (#[trigger] before[g]).owner@,
                            before[g].canonical_url@,
                        );
                    assert(groups@[g] == before[g]);
                } else {
                    assert(groups@[before.len() as int].owner@ == row.owner@);
                }
            }
        }
    }
}

/// Whether mappings stand in the order of their identifiers.
pub open spec fn in_id_order(rows: Seq<MappingRow>) -> bool {
    forall|i: int, j: int|
        0 <= i <= j < rows.len() ==> (#[trigger] rows[i]).id <= (#[trigger] rows[j]).id
}

proof fn lemma_inserted_by_id(rows: Seq<MappingRow>, row: MappingRow)
    ensures
        inserted_by_id(rows, row).len() == rows.len() + 1,
        inserted_by_id(rows, row).to_multiset() == rows.to_multiset().insert(row),
        in_id_order(rows) ==> in_id_order(inserted_by_id(rows, row)),
    decreases rows.len(),
{
    broadcast use vstd::seq_lib::group_to_multiset_ensures;

    if rows.len() == 0 || rows.last().id <= row.id {
        let all = rows.push(row);
        if in_id_order(rows) {
            assert forall|i: int, j: int| 0 <= i <= j < all.len() implies (#[trigger] all[i]).id <= (
            #[trigger] all[j]).id by {
                if i < rows.len() {
                    assert(rows[i].id <= rows[rows.len() - 1].id);
                }
            }
        }
    } else {
        let rest = rows.drop_last();
        let part = inserted_by_id(rest, row);
        let all = part.push(rows.last());
        lemma_inserted_by_id(rest, row);
        assert(rest.push(rows.last()) =~= rows);
        assert(all.to_multiset() =~= rows.to_multiset().insert(row));
        if in_id_order(rows) {
            assert(in_id_order(rest));
            assert forall|i: int, j: int| 0 <= i <= j < all.len() implies (#[trigger] all[i]).id <= (
            #[trigger] all[j]).id by {
                if i < part.len() && j == part.len() {
                    assert(part.to_multiset().contains(part[i]));
                    if part[i] != row {
                        assert(rest.to_multiset().contains(part[i]));
                        let k = choose|k: int| 0 <= k < rest.len() && rest[k] == part[i];
                        assert(rows[k].id <= rows[rows.len() - 1].id);
                    }
                } else if j < part.len() {
                    assert(part[i].id <= part[j].id);
                }
            }
        }
    }
}

/// Ordering mappings by their identifiers loses none and adds none.
pub proof fn law_by_id_orders(rows: Seq<MappingRow>)
    ensures
        in_id_order(by_id(rows)),
        by_id(rows).to_multiset() == rows.to_multiset(),
        by_id(rows).len() == rows.len(),
    decreases rows.len(),
{
    broadcast use vstd::seq_lib::group_to_multiset_ensures;

    if rows.len() > 0 {
        law_by_id_orders(rows.drop_last());
        lemma_inserted_by_id(by_id(rows.drop_last()), rows.last());
        assert(rows.drop_last().push(rows.last()) =~= rows);
    }
}

/// The merge of one group, where the server of the mapping that is kept is known.
fn merge_group(
    kind: MappingKind,
    has_server_id: bool,
    group: MappingGroup,
    canonical_server_ids: &HashMap<i64, i64>,
    Ghost(on): Ghost<Resolution>,
) -> (r: Result<MappingMerge, LegacyError>)
    requires
        group.members.len() > 0,
        on.has_server_id == has_server_id,
        on.ids == canonical_server_ids@,
    ensures
        match r {
            Ok(merge) => {
                &&& merge.owner@ == group.owner@
                &&& merge.canonical_url@ == group.canonical_url@
                &&& is_merge_of(on, group.members@, merge)
            },
            Err(error) => !can_keep(on, group.members[0]) && error == (
            LegacyError::MissingServerId { kind, mapping_id: group.members[0].id }),
        },
{
    let canonical_mapping_id: i64 = group.members[0].id;
    let mut duplicate_mapping_ids: Vec<i64> = Vec::new();
    let mut i: usize = 1;
    while i < group.members.len()
        invariant
            1 <= i <= group.members.len(),
            duplicate_mapping_ids.len() == i - 1,
            forall|k: int|
                0 <= k < i - 1 ==> #[trigger] duplicate_mapping_ids[k] == group.members[k + 1].id,
        decreases group.members.len() - i,
    {
        duplicate_mapping_ids.push(group.members[i].id);
        i = i + 1;
    }
    assert(duplicate_mapping_ids@ =~= group.members@.skip(1).map_values(
        |row: MappingRow| row.id,
    ));
    let update: Option<MappingUpdate> = if has_server_id {
        let server_id: Option<i64> = match group.members[0].server_id {
            Some(server_id) => match canonical_server_ids.get(&server_id) {
                Some(id) => Some(*id),
                None => None,
            },
            None => None,
        };
        match server_id {
            Some(_) => Some(MappingUpdate { server_id, server_url: group.canonical_url.clone() }),
            None => {
                return Err(LegacyError::MissingServerId { kind, mapping_id: canonical_mapping_id });
            },
        }
    } else if group.members[0].server_url != group.canonical_url {
        Some(MappingUpdate { server_id: None, server_url: group.canonical_url.clone() })
    } else {
        None
    };
    Ok(
        MappingMerge {
            owner: group.owner,
            canonical_url: group.canonical_url,
            canonical_mapping_id,
            duplicate_mapping_ids,
            update,
        },
    )
}

/// Whether the addresses that merges set are canonical if they are those of HTTP servers
/// whose hosts can be read.
pub open spec fn are_stable_merges(merges: Seq<MappingMerge>) -> bool {
    forall|g: int|
        0 <= g < merges.len() ==> server_url::is_stable((#[trigger] merges[g]).canonical_url@)
}

/// Merges the mappings of one table.
fn merge_mappings(
    kind: MappingKind,
    has_server_id: bool,
    rows: &[MappingRow],
    canonical_server_ids: &HashMap<i64, i64>,
    canonical_server_urls: &HashMap<i64, String>,
) -> (r: Result<Vec<MappingMerge>, LegacyError>)
    ensures
        ({
            let on = Resolution {
                has_server_id,
                ids: canonical_server_ids@,
                urls: canonical_server_urls@,
            };
            match r {
                Ok(merges) => {
                    &&& are_merges_of(on, rows@, merges@)
                    &&& !has_server_id ==> are_stable_merges(merges@)
                },
                Err(error) => is_merge_error(kind, on, rows@, error),
            }
        }),
{
    let ghost on = Resolution {
        has_server_id,
        ids: canonical_server_ids@,
        urls: canonical_server_urls@,
    };
    let mut groups: Vec<MappingGroup> = Vec::new();
    let mut i: usize = 0;
    while i < rows.len()
        invariant
            i <= rows.len(),
            on == (Resolution {
                has_server_id,
                ids: canonical_server_ids@,
                urls: canonical_server_urls@,
            }),
            are_groups_of(on, rows@.take(i as int), groups@),
            forall|j: int|
                0 <= j < i ==> resolved_url(on.has_server_id, #[trigger] rows@[j], on.ids, on.urls)
                    is Some,
            forall|j: int|
                0 <= j < i && !has_server_id ==> server_url::is_stable(
                    resolved_url(on.has_server_id, #[trigger] rows@[j], on.ids, on.urls)->0,
                ),
        decreases rows.len() - i,
    {
        match resolve_url(
            kind,
            has_server_id,
            &rows[i],
            canonical_server_ids,
            canonical_server_urls,
        ) {
            Ok(canonical_url) => {
                add_to_group(
                    &mut groups,
                    &rows[i],
                    canonical_url,
                    Ghost(on),
                    Ghost(rows@),
                    Ghost(i as int),
                );
            },
            Err(error) => {
                assert(resolved_url(on.has_server_id, rows@[i as int], on.ids, on.urls) is None);
                return Err(error);
            },
        }
        i = i + 1;
    }
    assert(rows@.take(i as int) =~= rows@);
    let ghost all = groups@;
    let mut merges: Vec<MappingMerge> = Vec::new();
    let mut rest: Vec<MappingGroup> = groups;
    while rest.len() > 0
        invariant
            on == (Resolution {
                has_server_id,
                ids: canonical_server_ids@,
                urls: canonical_server_urls@,
            }),
            are_groups_of(on, rows@, all),
            forall|j: int|
                0 <= j < rows.len() ==> resolved_url(
                    on.has_server_id,
                    #[trigger] rows@[j],
                    on.ids,
                    on.urls,
                ) is Some,
            forall|j: int|
                0 <= j < rows.len() && !has_server_id ==> server_url::is_stable(
                    resolved_url(on.has_server_id, #[trigger] rows@[j], on.ids, on.urls)->0,
                ),
            rest.len() + merges.len() == all.len(),
            rest@ == all.take(rest.len() as int),
            forall|g: int|
                0 <= g < merges.len() ==> {
                    let group = all[all.len() - 1 - g];
                    &&& (#[trigger] merges[g]).owner@ == group.owner@
                    &&& merges[g].canonical_url@ == group.canonical_url@
                    &&& is_merge_of(on, group.members@, merges[g])
                },
        decreases rest.len(),
    {
        let ghost before = rest@;
        match rest.pop() {
            Some(group) => {
                let ghost last = all[before.len() - 1];
                assert(group == last);
                assert(rest@ =~= all.take(rest.len() as int));
                match merge_group(kind, has_server_id, group, canonical_server_ids, Ghost(on)) {
                    Ok(merge) => {
                        merges.push(merge);
                    },
                    Err(error) => {
                        assert(mappings_of(on, rows@, last.owner@, last.canonical_url@).len() > 0);
                        return Err(error);
                    },
                }
            },
            None => {},
        }
    }
    proof {
        assert forall|g: int, h: int| 0 <= g < h < merges@.len() implies !same_target(
            #[trigger] merges@[g],
            #[trigger] merges@[h],
        ) by {
            let a = all[all.len() - 1 - g];
            let b = all[all.len() - 1 - h];
            assert(b.owner@ != a.owner@ || b.canonical_url@ != a.canonical_url@);
        }
        assert forall|i: int| 0 <= i < rows@.len() implies has_merge(
            on,
            merges@,
            #[trigger] rows@[i],
        ) by {
            assert(has_group(on, all, rows@[i]));
            let g = choose|g: int|
                0 <= g < all.len() && is_mapping_of(
                    on,
                    rows@[i],
                    (#[trigger] all[g]).owner@,
                    all[g].canonical_url@,
                );
            assert(merges@[all.len() - 1 - g].owner@ == all[g].owner@);
        }
        assert forall|g: int| 0 <= g < merges@.len() implies is_merge_of(
            on,
            mappings_of(on, rows@, (#[trigger] merges@[g]).owner@, merges@[g].canonical_url@),
            merges@[g],
        ) by {
            let group = all[all.len() - 1 - g];
            assert(group.members.len() > 0);
        }
        assert forall|g: int| 0 <= g < merges@.len() && !has_server_id implies server_url::is_stable(
            (#[trigger] merges@[g]).canonical_url@,
        ) by {
            lemma_member_place(on, rows@, merges@[g].owner@, merges@[g].canonical_url@, 0);
        }
    }
    Ok(merges)
}

/// Merges the mappings of users to accounts.
pub fn canonicalize_server_mappings(
    has_server_id: bool,
    rows: &[MappingRow],
    canonical_server_ids: &HashMap<i64, i64>,
    canonical_server_urls: &HashMap<i64, String>,
) -> (r: Result<Vec<MappingMerge>, LegacyError>)
    ensures
        ({
            let on = Resolution {
                has_server_id,
                ids: canonical_server_ids@,
                urls: canonical_server_urls@,
            };
            match r {
                Ok(merges) => {
                    &&& are_merges_of(on, rows@, merges@)
                    &&& !has_server_id ==> are_stable_merges(merges@)
                },
                Err(error) => is_merge_error(MappingKind::Server, on, rows@, error),
            }
        }),
{
    merge_mappings(
        MappingKind::Server,
        has_server_id,
        rows,
        canonical_server_ids,
        canonical_server_urls,
    )
}

/// Merges the mappings of virtual media identifiers.
pub fn canonicalize_media_mappings(
    has_server_id: bool,
    rows: &[MappingRow],
    canonical_server_ids: &HashMap<i64, i64>,
    canonical_server_urls: &HashMap<i64, String>,
) -> (r: Result<Vec<MappingMerge>, LegacyError>)
    ensures
        ({
            let on = Resolution {
                has_server_id,
                ids: canonical_server_ids@,
                urls: canonical_server_urls@,
            };
            match r {
                Ok(merges) => {
                    &&& are_merges_of(on, rows@, merges@)
                    &&& !has_server_id ==> are_stable_merges(merges@)
                },
                Err(error) => is_merge_error(MappingKind::Media, on, rows@, error),
            }
        }),
{
    merge_mappings(
        MappingKind::Media,
        has_server_id,
        rows,
        canonical_server_ids,
        canonical_server_urls,
    )
}

/// An authorization session.
pub struct SessionRow {
    pub id: i64,
    pub user_id: String,
    pub mapping_id: i64,
    pub device_id: String,
}

/// Whether a session belongs to mappings that become one.
pub open spec fn is_session_of(session: SessionRow, canonical: i64, duplicates: Seq<i64>) -> bool {
    session.mapping_id == canonical || duplicates.contains(session.mapping_id)
}

/// Whether two sessions are of the same user on the same device.
pub open spec fn same_device(a: SessionRow, b: SessionRow) -> bool {
    a.user_id@ == b.user_id@ && a.device_id@ == b.device_id@
}

/// Whether the session at `i` comes after another of the same user on the same device, both of
/// mappings that become one.
pub open spec fn is_superseded(
    sessions: Seq<SessionRow>,
    i: int,
    canonical: i64,
    duplicates: Seq<i64>,
) -> bool {
    &&& is_session_of(sessions[i], canonical, duplicates)
    &&& exists|j: int|
        0 <= j < i && is_session_of(#[trigger] sessions[j], canonical, duplicates) && same_device(
            sessions[j],
            sessions[i],
        )
}

/// The superseded ones of the first `n` sessions, in their order.
pub open spec fn superseded_sessions(
    sessions: Seq<SessionRow>,
    n: int,
    canonical: i64,
    duplicates: Seq<i64>,
) -> Seq<i64>
    decreases n,
{
    if n <= 0 {
        Seq::empty()
    } else if is_superseded(sessions, n - 1, canonical, duplicates) {
        superseded_sessions(sessions, n - 1, canonical, duplicates).push(sessions[n - 1].id)
    } else {
        superseded_sessions(sessions, n - 1, canonical, duplicates)
    }
}

fn is_listed(ids: &[i64], id: i64) -> (r: bool)
    ensures
        r == ids@.contains(id),
{
    let mut i: usize = 0;
    while i < ids.len()
        invariant
            i <= ids.len(),
            forall|k: int| 0 <= k < i ==> ids@[k] != id,
        decreases ids.len() - i,
    {
        if ids[i] == id {
            assert(ids@[i as int] == id);
            return true;
        }
        i = i + 1;
    }
    false
}

/// The sessions to delete where mappings become one: of each user on each device only the first
/// session is kept. The sessions are given with the newest first.
pub fn merge_authorization_sessions(
    sessions: &[SessionRow],
    canonical_mapping_id: i64,
    duplicate_mapping_ids: &[i64],
) -> (r: Vec<i64>)
    ensures
        r@ == if duplicate_mapping_ids.len() == 0 {
            Seq::empty()
        } else {
            superseded_sessions(
                sessions@,
                sessions.len() as int,
                canonical_mapping_id,
                duplicate_mapping_ids@,
            )
        },
{
    let mut duplicate_session_ids: Vec<i64> = Vec::new();
    if duplicate_mapping_ids.len() == 0 {
        return duplicate_session_ids;
    }
    let mut i: usize = 0;
    while i < sessions.len()
        invariant
            i <= sessions.len(),
            duplicate_session_ids@ == superseded_sessions(
                sessions@,
                i as int,
                canonical_mapping_id,
                duplicate_mapping_ids@,
            ),
        decreases sessions.len() - i,
    {
        let mut superseded = false;
        if sessions[i].mapping_id == canonical_mapping_id || is_listed(
            duplicate_mapping_ids,
            sessions[i].mapping_id,
        ) {
            let mut j: usize = 0;
            while j < i
                invariant
                    j <= i < sessions.len(),
                    superseded == exists|k: int|
                        0 <= k < j && is_session_of(
                            #[trigger] sessions@[k],
                            canonical_mapping_id,
                            duplicate_mapping_ids@,
                        ) && same_device(sessions@[k], sessions@[i as int]),
                decreases i - j,
            {
                if (sessions[j].mapping_id == canonical_mapping_id || is_listed(
                    duplicate_mapping_ids,
                    sessions[j].mapping_id,
                )) && sessions[j].user_id == sessions[i].user_id && sessions[j].device_id
                    == sessions[i].device_id {
                    superseded = true;
                    assert(same_device(sessions@[j as int], sessions@[i as int]));
                }
                j = j + 1;
            }
        }
        if superseded {
            duplicate_session_ids.push(sessions[i].id);
        }
        i = i + 1;
    }
    duplicate_session_ids
}

/// How the servers change.
pub struct ServerMerge {
    /// The servers to delete, before any is changed.
    pub duplicate_server_ids: Vec<i64>,
    /// The servers that remain, with their canonical addresses.
    pub remaining: Vec<LegacyServer>,
}

/// Whether a server is the one that remains of those with its address.
pub open spec fn remains(servers: Seq<LegacyServer>, server: LegacyServer) -> bool {
    is_canonical_id(servers, server.canonical_url@, server.id)
}

/// Whether a merge is the one of some servers.
pub open spec fn is_server_merge(servers: Seq<LegacyServer>, merge: ServerMerge) -> bool {
    &&& merge.duplicate_server_ids@ == servers.filter(
        |server: LegacyServer| !remains(servers, server),
    ).map_values(|server: LegacyServer| server.id)
    &&& merge.remaining@ == servers.filter(|server: LegacyServer| remains(servers, server))
}

/// Of the servers with one address the one with the smallest identifier remains.
pub fn merge_servers(servers: &[LegacyServer]) -> (r: ServerMerge)
    ensures
        is_server_merge(servers@, r),
{
    let ghost drops = |server: LegacyServer| !remains(servers@, server);
    let ghost stays = |server: LegacyServer| remains(servers@, server);
    let ghost to_id = |server: LegacyServer| server.id;
    let mut duplicate_server_ids: Vec<i64> = Vec::new();
    let mut remaining: Vec<LegacyServer> = Vec::new();
    let mut i: usize = 0;
    proof {
        reveal(Seq::filter);
        assert(servers@.take(0) =~= Seq::empty());
        assert(servers@.take(0).filter(drops).map_values(to_id) =~= Seq::empty());
    }
    while i < servers.len()
        invariant
            i <= servers.len(),
            drops == (|server: LegacyServer| !remains(servers@, server)),
            stays == (|server: LegacyServer| remains(servers@, server)),
            to_id == (|server: LegacyServer| server.id),
            duplicate_server_ids@ == servers@.take(i as int).filter(drops).map_values(to_id),
            remaining@ == servers@.take(i as int).filter(stays),
        decreases servers.len() - i,
    {
        proof {
            reveal(Seq::filter);
            assert(servers@.take(i + 1).drop_last() =~= servers@.take(i as int));
        }
        let canonical_id = smallest_id(servers, i);
        assert(remains(servers@, servers[i as int]) == (servers[i as int].id == canonical_id)) by {
            if remains(servers@, servers[i as int]) {
                let a = choose|a: int|
                    0 <= a < servers@.len() && (#[trigger] servers@[a]).id == canonical_id
                        && servers@[a].canonical_url@ == servers@[i as int].canonical_url@;
                assert(servers@[i as int].id <= servers@[a].id);
                assert(canonical_id <= servers@[i as int].id);
            }
        }
        if servers[i].id != canonical_id {
            duplicate_server_ids.push(servers[i].id);
        } else {
            remaining.push(
                LegacyServer { id: servers[i].id, canonical_url: servers[i].canonical_url.clone() },
            );
        }
        assert(duplicate_server_ids@ =~= servers@.take(i + 1).filter(drops).map_values(to_id));
        i = i + 1;
    }
    assert(servers@.take(i as int) =~= servers@);
    ServerMerge { duplicate_server_ids, remaining }
}

/// A table of mappings.
pub struct MappingTable {
    /// Whether the table names servers by identifier.
    pub has_server_id: bool,
    pub rows: Vec<MappingRow>,
}

/// What is stored, as far as the tables exist. Servers, accounts and mappings stand in the order
/// of their identifiers, sessions with the newest first.
pub struct LegacyTables {
    pub servers: Option<Vec<StoredServer>>,
    pub server_admins: Option<Vec<AdminRow>>,
    pub server_mappings: Option<MappingTable>,
    pub media_mappings: Option<MappingTable>,
    pub authorization_sessions: Option<Vec<SessionRow>>,
}

/// How all tables change, in this order.
pub struct LegacyPlan {
    /// The servers, with canonical addresses.
    pub servers: Vec<LegacyServer>,
    /// The server that each server becomes.
    pub canonical_server_ids: HashMap<i64, i64>,
    /// The canonical address of each server.
    pub canonical_server_urls: HashMap<i64, String>,
    pub admins: Option<AdminMerge>,
    pub mappings: Option<Vec<MappingMerge>>,
    /// For each merge of mappings the sessions to delete. The sessions of the mappings that are
    /// deleted move to the one that is kept.
    pub superseded_sessions: Option<Vec<Vec<i64>>>,
    pub media: Option<Vec<MappingMerge>>,
    /// Whether each session takes the address over from its mapping.
    pub copy_urls_to_sessions: bool,
    pub server_merge: ServerMerge,
}

/// What the maps of servers say of one table.
pub open spec fn resolution(
    table: MappingTable,
    ids: Map<i64, i64>,
    urls: Map<i64, String>,
) -> Resolution {
    Resolution { has_server_id: table.has_server_id, ids, urls }
}

/// Whether merges are those of a table, if there is one.
pub open spec fn are_table_merges(
    table: Option<MappingTable>,
    ids: Map<i64, i64>,
    urls: Map<i64, String>,
    merges: Option<Vec<MappingMerge>>,
) -> bool {
    match table {
        Some(table) => merges matches Some(merges) && are_merges_of(
            resolution(table, ids, urls),
            table.rows@,
            merges@,
        ),
        None => merges is None,
    }
}

/// The sessions to delete for a merge.
pub open spec fn deleted_sessions(sessions: Seq<SessionRow>, merge: MappingMerge) -> Seq<i64> {
    if merge.duplicate_mapping_ids.len() == 0 {
        Seq::empty()
    } else {
        superseded_sessions(
            sessions,
            sessions.len() as int,
            merge.canonical_mapping_id,
            merge.duplicate_mapping_ids@,
        )
    }
}

/// Whether lists of sessions are those to delete for some merges.
pub open spec fn are_deleted_sessions(
    sessions: Option<Vec<SessionRow>>,
    merges: Option<Vec<MappingMerge>>,
    deleted: Option<Vec<Vec<i64>>>,
) -> bool {
    match (sessions, merges) {
        (Some(sessions), Some(merges)) => {
            &&& deleted matches Some(deleted)
            &&& deleted.len() == merges.len()
            &&& forall|g: int|
                0 <= g < merges.len() ==> (#[trigger] deleted[g])@ == deleted_sessions(
                    sessions@,
                    merges[g],
                )
        },
        _ => deleted is None,
    }
}

/// Whether a plan brings tables into order.
pub open spec fn is_plan(
    tables: LegacyTables,
    stored: Seq<StoredServer>,
    plan: LegacyPlan,
) -> bool {
    let ids = plan.canonical_server_ids@;
    let urls = plan.canonical_server_urls@;
    let servers = plan.servers@;
    &&& are_loaded(stored, servers)
    &&& are_canonical_ids(servers, ids)
    &&& are_canonical_urls(servers, urls)
    &&& match tables.server_admins {
        Some(rows) => {
            &&& plan.admins matches Some(admins)
            &&& admins.admin_by_server@ == merged_admins(rows@, ids)
            &&& admins.duplicate_admin_ids@ == surplus_admins(rows@, ids)
        },
        None => plan.admins is None,
    }
    &&& are_table_merges(tables.server_mappings, ids, urls, plan.mappings)
    &&& are_deleted_sessions(
        tables.authorization_sessions,
        plan.mappings,
        plan.superseded_sessions,
    )
    &&& are_table_merges(tables.media_mappings, ids, urls, plan.media)
    &&& plan.copy_urls_to_sessions == (tables.authorization_sessions is Some
        && tables.server_mappings is Some)
    &&& is_server_merge(servers, plan.server_merge)
}

/// Whether an error says why a table of mappings cannot be merged.
pub open spec fn is_table_error(
    kind: MappingKind,
    table: Option<MappingTable>,
    ids: Map<i64, i64>,
    urls: Map<i64, String>,
    error: LegacyError,
) -> bool {
    table matches Some(table) && is_merge_error(
        kind,
        resolution(table, ids, urls),
        table.rows@,
        error,
    )
}

/// Whether an error says why tables cannot be brought into order, where the servers can be read:
/// mappings of users come first.
pub open spec fn is_plan_error(
    tables: LegacyTables,
    servers: Seq<LegacyServer>,
    ids: Map<i64, i64>,
    urls: Map<i64, String>,
    error: LegacyError,
) -> bool {
    &&& are_canonical_ids(servers, ids)
    &&& are_canonical_urls(servers, urls)
    &&& {
        ||| is_table_error(MappingKind::Server, tables.server_mappings, ids, urls, error)
        ||| {
            &&& exists|merges: Option<Vec<MappingMerge>>|
                #[trigger] are_table_merges(tables.server_mappings, ids, urls, merges)
            &&& is_table_error(MappingKind::Media, tables.media_mappings, ids, urls, error)
        }
    }
}

/// Whether the addresses that the merges of a table set are canonical if they are those of HTTP
/// servers whose hosts can be read, where the table does not name the servers that have them.
pub open spec fn is_stable_table(
    table: Option<MappingTable>,
    merges: Option<Vec<MappingMerge>>,
) -> bool {
    table matches Some(table) ==> (merges matches Some(merges) ==> (!table.has_server_id
        ==> are_stable_merges(merges@)))
}

/// Whether the addresses that a plan sets are canonical if they are those of HTTP servers
/// whose hosts can be read.
pub open spec fn is_stable_plan(tables: LegacyTables, plan: LegacyPlan) -> bool {
    &&& are_stable_servers(plan.server_merge.remaining@)
    &&& is_stable_table(tables.server_mappings, plan.mappings)
    &&& is_stable_table(tables.media_mappings, plan.media)
}

fn merge_table(
    kind: MappingKind,
    table: &Option<MappingTable>,
    canonical_server_ids: &HashMap<i64, i64>,
    canonical_server_urls: &HashMap<i64, String>,
) -> (r: Result<Option<Vec<MappingMerge>>, LegacyError>)
    ensures
        match r {
            Ok(merges) => are_table_merges(
                *table,
                canonical_server_ids@,
                canonical_server_urls@,
                merges,
            ) && is_stable_table(*table, merges),
            Err(error) => is_table_error(
                kind,
                *table,
                canonical_server_ids@,
                canonical_server_urls@,
                error,
            ),
        },
{
    match table {
        Some(table) => {
            let merged = match kind {
                MappingKind::Server => canonicalize_server_mappings(
                    table.has_server_id,
                    table.rows.as_slice(),
                    canonical_server_ids,
                    canonical_server_urls,
                ),
                MappingKind::Media => canonicalize_media_mappings(
                    table.has_server_id,
                    table.rows.as_slice(),
                    canonical_server_ids,
                    canonical_server_urls,
                ),
            };
            match merged {
                Ok(merges) => Ok(Some(merges)),
                Err(error) => Err(error),
            }
        },
        None => Ok(None),
    }
}

fn superseded_in_merges(
    sessions: &Option<Vec<SessionRow>>,
    merges: &Option<Vec<MappingMerge>>,
) -> (r: Option<Vec<Vec<i64>>>)
    ensures
        are_deleted_sessions(*sessions, *merges, r),
{
    match (sessions, merges) {
        (Some(sessions), Some(merges)) => {
            let mut deleted: Vec<Vec<i64>> = Vec::new();
            let mut g: usize = 0;
            while g < merges.len()
                invariant
                    g <= merges.len(),
                    deleted.len() == g,
                    forall|h: int|
                        0 <= h < g ==> (#[trigger] deleted[h])@ == deleted_sessions(
                            sessions@,
                            merges[h],
                        ),
                decreases merges.len() - g,
            {
                deleted.push(
                    merge_authorization_sessions(
                        sessions.as_slice(),
                        merges[g].canonical_mapping_id,
                        merges[g].duplicate_mapping_ids.as_slice(),
                    ),
                );
                g = g + 1;
            }
            Some(deleted)
        },
        _ => None,
    }
}

/// How to bring the tables into order. Where no server is stored, there is nothing to do.
pub fn canonicalize_legacy_server_identity(tables: &LegacyTables) -> (r: Result<
    Option<LegacyPlan>,
    LegacyError,
>)
    ensures
        match tables.servers {
            Some(stored) => if stored.len() == 0 {
                r matches Ok(None)
            } else {
                match r {
                    Ok(plan) => plan matches Some(plan) && is_plan(*tables, stored@, plan)
                        && is_stable_plan(*tables, plan),
                    Err(error) => is_load_error(stored@, error) || exists|
                        servers: Seq<LegacyServer>,
                        ids: Map<i64, i64>,
                        urls: Map<i64, String>,
                    |
                        are_loaded(stored@, servers) && #[trigger] is_plan_error(
                            *tables,
                            servers,
                            ids,
                            urls,
                            error,
                        ),
                }
            },
            None => r matches Ok(None),
        },
{
    let stored = match &tables.servers {
        Some(stored) => stored,
        None => return Ok(None),
    };
    let servers = match load_servers(stored.as_slice()) {
        Ok(servers) => servers,
        Err(error) => return Err(error),
    };
    if servers.len() == 0 {
        return Ok(None);
    }
    let ids = canonical_server_ids(servers.as_slice());
    let urls = canonical_server_urls(servers.as_slice());
    let admins = match &tables.server_admins {
        Some(rows) => Some(merge_server_admins(rows.as_slice(), &ids)),
        None => None,
    };
    let mappings = match merge_table(MappingKind::Server, &tables.server_mappings, &ids, &urls) {
        Ok(mappings) => mappings,
        Err(error) => {
            assert(is_plan_error(*tables, servers@, ids@, urls@, error));
            return Err(error);
        },
    };
    let superseded_sessions = superseded_in_merges(&tables.authorization_sessions, &mappings);
    let media = match merge_table(MappingKind::Media, &tables.media_mappings, &ids, &urls) {
        Ok(media) => media,
        Err(error) => {
            assert(is_plan_error(*tables, servers@, ids@, urls@, error));
            return Err(error);
        },
    };
    let copy_urls_to_sessions = tables.authorization_sessions.is_some()
        && tables.server_mappings.is_some();
    let server_merge = merge_servers(servers.as_slice());
    proof {
        let keeps = |server: LegacyServer| remains(servers@, server);
        assert forall|i: int| 0 <= i < server_merge.remaining@.len() implies server_url::is_stable(
            (#[trigger] server_merge.remaining@[i]).canonical_url@,
        ) by {
            servers@.lemma_filter_contains_rev(keeps, server_merge.remaining@[i]);
        }
    }
    Ok(
        Some(
            LegacyPlan {
                servers,
                canonical_server_ids: ids,
                canonical_server_urls: urls,
                admins,
                mappings,
                superseded_sessions,
                media,
                copy_urls_to_sessions,
                server_merge,
            },
        ),
    )
}

/// Whether no two servers have one identifier.
pub open spec fn distinct_servers(servers: Seq<LegacyServer>) -> bool {
    forall|i: int, j: int|
        0 <= i < j < servers.len() ==> (#[trigger] servers[i]).id != (#[trigger] servers[j]).id
}

proof fn lemma_filter_keeps_distinct(
    servers: Seq<LegacyServer>,
    keeps: spec_fn(LegacyServer) -> bool,
)
    requires
        distinct_servers(servers),
    ensures
        distinct_servers(servers.filter(keeps)),
    decreases servers.len(),
{
    reveal(Seq::filter);
    if servers.len() > 0 {
        let rest = servers.drop_last();
        lemma_filter_keeps_distinct(rest, keeps);
        let kept = rest.filter(keeps);
        let all = servers.filter(keeps);
        if keeps(servers.last()) {
            assert(all == kept.push(servers.last()));
            assert forall|i: int, j: int| 0 <= i < j < all.len() implies (#[trigger] all[i]).id != (
            #[trigger] all[j]).id by {
                assert(all[i] == kept[i]);
                if j == kept.len() {
                    rest.lemma_filter_contains_rev(keeps, kept[i]);
                    let k = choose|k: int| 0 <= k < rest.len() && rest[k] == kept[i];
                    assert(servers[k].id != servers[servers.len() - 1].id);
                } else {
                    assert(all[j] == kept[j]);
                }
            }
        }
    }
}

/// The servers that remain have different addresses.
pub proof fn law_remaining_servers_differ(servers: Seq<LegacyServer>, merge: ServerMerge)
    requires
        distinct_servers(servers),
        is_server_merge(servers, merge),
    ensures
        forall|g: int, h: int|
            0 <= g < h < merge.remaining.len() ==> (#[trigger] merge.remaining[g]).canonical_url@
                != (#[trigger] merge.remaining[h]).canonical_url@,
{
    let keeps = |server: LegacyServer| remains(servers, server);
    let remaining = merge.remaining@;
    lemma_filter_keeps_distinct(servers, keeps);
    assert forall|g: int, h: int| 0 <= g < h < remaining.len() implies (
    #[trigger] remaining[g]).canonical_url@ != (#[trigger] remaining[h]).canonical_url@ by {
        servers.lemma_filter_pred(keeps, g);
        servers.lemma_filter_pred(keeps, h);
        servers.lemma_filter_contains_rev(keeps, remaining[g]);
        servers.lemma_filter_contains_rev(keeps, remaining[h]);
        let a = choose|a: int| 0 <= a < servers.len() && servers[a] == remaining[g];
        let b = choose|b: int| 0 <= b < servers.len() && servers[b] == remaining[h];
        assert(remains(servers, servers[a]) && remains(servers, servers[b]));
        assert(remaining[g].id != remaining[h].id);
        assert(servers[a].canonical_url@ == servers[b].canonical_url@ ==> servers[a].id
            <= servers[b].id && servers[b].id <= servers[a].id);
    }
}

/// Every server becomes one that remains and has the same address.
pub proof fn law_every_server_becomes_a_remaining_one(
    servers: Seq<LegacyServer>,
    ids: Map<i64, i64>,
    merge: ServerMerge,
    i: int,
)
    requires
        distinct_servers(servers),
        are_canonical_ids(servers, ids),
        is_server_merge(servers, merge),
        0 <= i < servers.len(),
    ensures
        exists|g: int|
            0 <= g < merge.remaining.len() && (#[trigger] merge.remaining[g]).id
                == ids[servers[i].id] && merge.remaining[g].canonical_url@
                == servers[i].canonical_url@,
{
    let keeps = |server: LegacyServer| remains(servers, server);
    let url = servers[i].canonical_url@;
    assert(is_last_with_id(servers, i));
    let id = ids[servers[i].id];
    assert(is_canonical_id(servers, url, id));
    let k = choose|k: int|
        0 <= k < servers.len() && (#[trigger] servers[k]).id == id && servers[k].canonical_url@
            == url;
    assert(remains(servers, servers[k]));
    assert(servers.contains(servers[k]));
    servers.lemma_filter_contains(keeps, k);
    let g = choose|g: int| 0 <= g < merge.remaining@.len() && merge.remaining@[g] == servers[k];
    assert(merge.remaining[g].id == id);
}

/// Whether accounts stand in the order of their identifiers, none of which occurs twice.
pub open spec fn ascending_admins(rows: Seq<AdminRow>) -> bool {
    forall|i: int, j: int|
        0 <= i < j < rows.len() ==> (#[trigger] rows[i]).id < (#[trigger] rows[j]).id
}

/// Of the accounts of servers that become one, the one with the smallest identifier is kept and the
/// others are deleted.
pub proof fn law_one_admin_per_server(rows: Seq<AdminRow>, ids: Map<i64, i64>)
    requires
        ascending_admins(rows),
    ensures
        forall|i: int|
            0 <= i < rows.len() && ids.contains_key((#[trigger] rows[i]).server_id) ==> {
                let server = ids[rows[i].server_id];
                let kept = merged_admins(rows, ids);
                &&& kept.contains_key(server)
                &&& kept[server] <= rows[i].id
                &&& surplus_admins(rows, ids).contains(rows[i].id) <==> kept[server] != rows[i].id
            },
        forall|server: i64| #[trigger]
            merged_admins(rows, ids).contains_key(server) ==> exists|i: int|
                0 <= i < rows.len() && (#[trigger] rows[i]).id == merged_admins(rows, ids)[server]
                    && ids.contains_key(rows[i].server_id) && ids[rows[i].server_id] == server,
        forall|id: i64| #[trigger]
            surplus_admins(rows, ids).contains(id) ==> exists|i: int|
                0 <= i < rows.len() && (#[trigger] rows[i]).id == id && ids.contains_key(
                    rows[i].server_id,
                ),
    decreases rows.len(),
{
    if rows.len() > 0 {
        let rest = rows.drop_last();
        let row = rows.last();
        assert(ascending_admins(rest));
        law_one_admin_per_server(rest, ids);
        let before = merged_admins(rest, ids);
        let kept = merged_admins(rows, ids);
        let surplus = surplus_admins(rest, ids);
        let all = surplus_admins(rows, ids);
        assert forall|i: int| 0 <= i < rest.len() implies (#[trigger] rest[i]).id < row.id by {
            assert(rows[i].id < rows[rows.len() - 1].id);
        }
        assert(!surplus.contains(row.id));
        assert forall|id: i64| #[trigger] all.contains(id) implies surplus.contains(id) || id
            == row.id by {
            let k = choose|k: int| 0 <= k < all.len() && all[k] == id;
            if k < surplus.len() {
                assert(surplus[k] == id);
            }
        }
        assert forall|id: i64| #[trigger] surplus.contains(id) implies all.contains(id) by {
            let k = choose|k: int| 0 <= k < surplus.len() && surplus[k] == id;
            assert(all[k] == id);
        }
        assert forall|server: i64| #[trigger] kept.contains_key(server) implies exists|i: int|
            0 <= i < rows.len() && (#[trigger] rows[i]).id == kept[server] && ids.contains_key(
                rows[i].server_id,
            ) && ids[rows[i].server_id] == server by {
            if before.contains_key(server) && kept[server] == before[server] {
                let k = choose|k: int|
                    0 <= k < rest.len() && (#[trigger] rest[k]).id == before[server]
                        && ids.contains_key(rest[k].server_id) && ids[rest[k].server_id] == server;
                assert(rows[k].id == kept[server]);
            } else {
                assert(rows[rows.len() - 1].id == kept[server]);
            }
        }
        assert forall|id: i64| #[trigger] all.contains(id) implies exists|i: int|
            0 <= i < rows.len() && (#[trigger] rows[i]).id == id && ids.contains_key(
                rows[i].server_id,
            ) by {
            if surplus.contains(id) {
                let k = choose|k: int|
                    0 <= k < rest.len() && (#[trigger] rest[k]).id == id && ids.contains_key(
                        rest[k].server_id,
                    );
                assert(rows[k].id == id);
            } else {
                assert(rows[rows.len() - 1].id == id);
            }
        }
        assert forall|i: int| 0 <= i < rows.len() && ids.contains_key(
            (#[trigger] rows[i]).server_id,
        ) implies {
            let server = ids[rows[i].server_id];
            &&& kept.contains_key(server)
            &&& kept[server] <= rows[i].id
            &&& all.contains(rows[i].id) <==> kept[server] != rows[i].id
        } by {
            let server = ids[rows[i].server_id];
            if before.contains_key(server) {
                let k = choose|k: int|
                    0 <= k < rest.len() && (#[trigger] rest[k]).id == before[server]
                        && ids.contains_key(rest[k].server_id) && ids[rest[k].server_id] == server;
                assert(rest[k].id < row.id);
            }
            if i < rest.len() {
                assert(rest[i] == rows[i]);
                assert(rest[i].id < row.id);
            } else if before.contains_key(server) {
                assert(all[all.len() - 1] == row.id);
            } else {
                assert(all == surplus);
            }
        }
    }
}

/// Whether no two mappings have one identifier.
pub open spec fn distinct_mappings(rows: Seq<MappingRow>) -> bool {
    forall|i: int, j: int|
        0 <= i < j < rows.len() ==> (#[trigger] rows[i]).id != (#[trigger] rows[j]).id
}

/// Whether some merge keeps a mapping.
pub open spec fn is_kept(merges: Seq<MappingMerge>, id: i64) -> bool {
    exists|g: int| 0 <= g < merges.len() && (#[trigger] merges[g]).canonical_mapping_id == id
}

/// Whether some merge deletes a mapping.
pub open spec fn is_deleted(merges: Seq<MappingMerge>, id: i64) -> bool {
    exists|g: int|
        0 <= g < merges.len() && (#[trigger] merges[g]).duplicate_mapping_ids@.contains(id)
}

/// The mapping to which a session of a mapping belongs afterwards.
pub open spec fn new_mapping(merges: Seq<MappingMerge>, id: i64) -> i64 {
    if is_deleted(merges, id) {
        merges[choose|g: int|
            0 <= g < merges.len() && (
            #[trigger] merges[g]).duplicate_mapping_ids@.contains(id)].canonical_mapping_id
    } else {
        id
    }
}

/// The place in a table of a mapping of an owner to a server.
pub(crate) proof fn lemma_member_place(
    on: Resolution,
    rows: Seq<MappingRow>,
    owner: Seq<char>,
    url: Seq<char>,
    k: int,
) -> (i: int)
    requires
        0 <= k < mappings_of(on, rows, owner, url).len(),
    ensures
        0 <= i < rows.len(),
        rows[i] == mappings_of(on, rows, owner, url)[k],
        is_mapping_of(on, rows[i], owner, url),
{
    broadcast use vstd::seq_lib::group_to_multiset_ensures;

    let is_wanted = |row: MappingRow| is_mapping_of(on, row, owner, url);
    let members = mappings_of(on, rows, owner, url);
    let wanted = rows.filter(is_wanted);
    law_by_id_orders(wanted);
    assert(members.to_multiset().contains(members[k]));
    assert(wanted.contains(members[k]));
    let w = choose|w: int| 0 <= w < wanted.len() && wanted[w] == members[k];
    rows.lemma_filter_pred(is_wanted, w);
    rows.lemma_filter_contains_rev(is_wanted, wanted[w]);
    choose|i: int| 0 <= i < rows.len() && rows[i] == members[k]
}

/// The place in a merge of a mapping of a table.
pub(crate) proof fn lemma_place_in_merge(
    on: Resolution,
    rows: Seq<MappingRow>,
    merge: MappingMerge,
    i: int,
) -> (k: int)
    requires
        0 <= i < rows.len(),
        is_mapping_of(on, rows[i], merge.owner@, merge.canonical_url@),
    ensures
        0 <= k < mappings_of(on, rows, merge.owner@, merge.canonical_url@).len(),
        rows[i] == mappings_of(on, rows, merge.owner@, merge.canonical_url@)[k],
{
    broadcast use vstd::seq_lib::group_to_multiset_ensures;

    let is_wanted = |row: MappingRow|
        is_mapping_of(on, row, merge.owner@, merge.canonical_url@);
    let members = mappings_of(on, rows, merge.owner@, merge.canonical_url@);
    let wanted = rows.filter(is_wanted);
    law_by_id_orders(wanted);
    rows.lemma_filter_contains(is_wanted, i);
    assert(wanted.to_multiset().contains(rows[i]));
    assert(members.contains(rows[i]));
    choose|k: int| 0 <= k < members.len() && members[k] == rows[i]
}

proof fn lemma_filter_has_no_twice(rows: Seq<MappingRow>, keeps: spec_fn(MappingRow) -> bool)
    requires
        distinct_mappings(rows),
    ensures
        rows.filter(keeps).no_duplicates(),
    decreases rows.len(),
{
    reveal(Seq::filter);
    if rows.len() > 0 {
        let rest = rows.drop_last();
        lemma_filter_has_no_twice(rest, keeps);
        let kept = rest.filter(keeps);
        if keeps(rows.last()) {
            assert(rows.filter(keeps) == kept.push(rows.last()));
            if kept.contains(rows.last()) {
                rest.lemma_filter_contains_rev(keeps, rows.last());
                let k = choose|k: int| 0 <= k < rest.len() && rest[k] == rows.last();
                assert(rows[k].id != rows[rows.len() - 1].id);
            }
        }
    }
}

/// The mapping that a merge keeps is none of those that it deletes.
pub(crate) proof fn lemma_kept_is_not_deleted(on: Resolution, rows: Seq<MappingRow>, merge: MappingMerge)
    requires
        distinct_mappings(rows),
        is_merge_of(on, mappings_of(on, rows, merge.owner@, merge.canonical_url@), merge),
    ensures
        !merge.duplicate_mapping_ids@.contains(merge.canonical_mapping_id),
{
    broadcast use vstd::seq_lib::group_to_multiset_ensures;

    let is_wanted = |row: MappingRow|
        is_mapping_of(on, row, merge.owner@, merge.canonical_url@);
    let members = mappings_of(on, rows, merge.owner@, merge.canonical_url@);
    let wanted = rows.filter(is_wanted);
    if merge.duplicate_mapping_ids@.contains(merge.canonical_mapping_id) {
        let k = choose|k: int|
            0 <= k < merge.duplicate_mapping_ids@.len() && merge.duplicate_mapping_ids@[k]
                == merge.canonical_mapping_id;
        assert(members.skip(1)[k] == members[k + 1]);
        let a = lemma_member_place(on, rows, merge.owner@, merge.canonical_url@, 0);
        let b = lemma_member_place(on, rows, merge.owner@, merge.canonical_url@, k + 1);
        if a < b {
            assert(rows[a].id != rows[b].id);
        } else if b < a {
            assert(rows[b].id != rows[a].id);
        }
        assert(members[0] == members[k + 1]);
        lemma_filter_has_no_twice(rows, is_wanted);
        law_by_id_orders(wanted);
        wanted.lemma_multiset_has_no_duplicates();
        members.lemma_multiset_has_no_duplicates_conv();
        assert(members.no_duplicates());
    }
}

/// Every mapping is either kept or deleted, and a session of it belongs afterwards to a mapping
/// that is kept: no session is orphaned.
pub proof fn law_no_orphaned_session(
    on: Resolution,
    rows: Seq<MappingRow>,
    merges: Seq<MappingMerge>,
    i: int,
)
    requires
        distinct_mappings(rows),
        are_merges_of(on, rows, merges),
        0 <= i < rows.len(),
    ensures
        is_kept(merges, rows[i].id) != is_deleted(merges, rows[i].id),
        is_kept(merges, new_mapping(merges, rows[i].id)),
        !is_deleted(merges, new_mapping(merges, rows[i].id)),
{
    assert(has_merge(on, merges, rows[i]));
    let g = choose|g: int|
        0 <= g < merges.len() && is_mapping_of(
            on,
            rows[i],
            (#[trigger] merges[g]).owner@,
            merges[g].canonical_url@,
        );
    let members = mappings_of(on, rows, merges[g].owner@, merges[g].canonical_url@);
    let k = lemma_place_in_merge(on, rows, merges[g], i);
    if k == 0 {
        assert(merges[g].canonical_mapping_id == rows[i].id);
    } else {
        assert(members.skip(1)[k - 1] == members[k]);
        assert(merges[g].duplicate_mapping_ids@[k - 1] == rows[i].id);
    }
    lemma_kept_xor_deleted(on, rows, merges, rows[i].id);
    if is_deleted(merges, rows[i].id) {
        let h = choose|h: int|
            0 <= h < merges.len() && (#[trigger] merges[h]).duplicate_mapping_ids@.contains(
                rows[i].id,
            );
        assert(merges[h].canonical_mapping_id == new_mapping(merges, rows[i].id));
        lemma_kept_xor_deleted(on, rows, merges, merges[h].canonical_mapping_id);
    }
}

proof fn lemma_kept_xor_deleted(
    on: Resolution,
    rows: Seq<MappingRow>,
    merges: Seq<MappingMerge>,
    id: i64,
)
    requires
        distinct_mappings(rows),
        are_merges_of(on, rows, merges),
    ensures
        !(is_kept(merges, id) && is_deleted(merges, id)),
{
    if is_kept(merges, id) && is_deleted(merges, id) {
        let g = choose|g: int|
            0 <= g < merges.len() && (#[trigger] merges[g]).canonical_mapping_id == id;
        let h = choose|h: int|
            0 <= h < merges.len() && (#[trigger] merges[h]).duplicate_mapping_ids@.contains(id);
        let k = choose|k: int|
            0 <= k < merges[h].duplicate_mapping_ids@.len()
                && merges[h].duplicate_mapping_ids@[k] == id;
        let members = mappings_of(on, rows, merges[h].owner@, merges[h].canonical_url@);
        assert(members.skip(1)[k] == members[k + 1]);
        let a = lemma_member_place(on, rows, merges[g].owner@, merges[g].canonical_url@, 0);
        let b = lemma_member_place(on, rows, merges[h].owner@, merges[h].canonical_url@, k + 1);
        if a < b {
            assert(rows[a].id != rows[b].id);
        } else if b < a {
            assert(rows[b].id != rows[a].id);
        }
        if g < h {
            assert(!same_target(merges[g], merges[h]));
        } else if h < g {
            assert(!same_target(merges[h], merges[g]));
        } else {
            lemma_kept_is_not_deleted(on, rows, merges[g]);
        }
    }
}

/// Where the table names servers by identifier, each mapping that is kept refers to a server that
/// remains.
pub proof fn law_kept_mappings_refer_to_remaining_servers(
    servers: Seq<LegacyServer>,
    on: Resolution,
    rows: Seq<MappingRow>,
    merges: Seq<MappingMerge>,
    g: int,
)
    requires
        distinct_servers(servers),
        are_canonical_ids(servers, on.ids),
        on.has_server_id,
        are_merges_of(on, rows, merges),
        0 <= g < merges.len(),
    ensures
        merges[g].update matches Some(update) && (update.server_id matches Some(server_id)
            && exists|k: int|
            0 <= k < servers.len() && (#[trigger] servers[k]).id == server_id && remains(
                servers,
                servers[k],
            )),
{
    let members = mappings_of(on, rows, merges[g].owner@, merges[g].canonical_url@);
    assert(is_merge_of(on, members, merges[g]));
    let old_id = members[0].server_id->0;
    assert(has_id(servers, old_id));
    let i = choose|i: int| 0 <= i < servers.len() && (#[trigger] servers[i]).id == old_id;
    assert(is_last_with_id(servers, i));
    let id = on.ids[old_id];
    let url = servers[i].canonical_url@;
    assert(is_canonical_id(servers, url, id));
    let k = choose|k: int|
        0 <= k < servers.len() && (#[trigger] servers[k]).id == id && servers[k].canonical_url@
            == url;
    assert(remains(servers, servers[k]));
}

/// Whether no two sessions have one identifier.
pub open spec fn distinct_sessions(sessions: Seq<SessionRow>) -> bool {
    forall|i: int, j: int|
        0 <= i < j < sessions.len() ==> (#[trigger] sessions[i]).id != (#[trigger] sessions[j]).id
}

/// Exactly the superseded sessions are deleted.
proof fn lemma_superseded_sessions(
    sessions: Seq<SessionRow>,
    n: int,
    canonical: i64,
    duplicates: Seq<i64>,
    i: int,
)
    requires
        distinct_sessions(sessions),
        0 <= n <= sessions.len(),
        0 <= i < sessions.len(),
    ensures
        superseded_sessions(sessions, n, canonical, duplicates).contains(sessions[i].id) <==> i < n
            && is_superseded(sessions, i, canonical, duplicates),
    decreases n,
{
    if n > 0 {
        lemma_superseded_sessions(sessions, n - 1, canonical, duplicates, i);
        let rest = superseded_sessions(sessions, n - 1, canonical, duplicates);
        let all = superseded_sessions(sessions, n, canonical, duplicates);
        if is_superseded(sessions, n - 1, canonical, duplicates) {
            assert(all == rest.push(sessions[n - 1].id));
            assert(all[all.len() - 1] == sessions[n - 1].id);
            if rest.contains(sessions[i].id) {
                let k = choose|k: int| 0 <= k < rest.len() && rest[k] == sessions[i].id;
                assert(all[k] == sessions[i].id);
            }
            if all.contains(sessions[i].id) && i != n - 1 {
                let k = choose|k: int| 0 <= k < all.len() && all[k] == sessions[i].id;
                if i < n - 1 {
                    assert(sessions[i].id != sessions[n - 1].id);
                } else {
                    assert(sessions[n - 1].id != sessions[i].id);
                }
                assert(rest[k] == sessions[i].id);
            }
        }
    }
}

/// Where mappings become one, each user keeps on each device exactly one session of them: the
/// newest.
pub proof fn law_newest_session_per_device(
    sessions: Seq<SessionRow>,
    merge: MappingMerge,
    i: int,
)
    requires
        distinct_sessions(sessions),
        merge.duplicate_mapping_ids.len() > 0,
        0 <= i < sessions.len(),
        is_session_of(
            sessions[i],
            merge.canonical_mapping_id,
            merge.duplicate_mapping_ids@,
        ),
    ensures
        deleted_sessions(sessions, merge).contains(sessions[i].id) <==> exists|j: int|
            0 <= j < i && is_session_of(
                #[trigger] sessions[j],
                merge.canonical_mapping_id,
                merge.duplicate_mapping_ids@,
            ) && same_device(sessions[j], sessions[i]),
{
    lemma_superseded_sessions(
        sessions,
        sessions.len() as int,
        merge.canonical_mapping_id,
        merge.duplicate_mapping_ids@,
        i,
    );
}

/// A session of a mapping that no merge touches is not deleted by it.
pub proof fn law_other_sessions_stay(sessions: Seq<SessionRow>, merge: MappingMerge, i: int)
    requires
        distinct_sessions(sessions),
        0 <= i < sessions.len(),
        !is_session_of(
            sessions[i],
            merge.canonical_mapping_id,
            merge.duplicate_mapping_ids@,
        ),
    ensures
        !deleted_sessions(sessions, merge).contains(sessions[i].id),
{
    lemma_superseded_sessions(
        sessions,
        sessions.len() as int,
        merge.canonical_mapping_id,
        merge.duplicate_mapping_ids@,
        i,
    );
}

/// `count` question marks with commas between them.
pub open spec fn placeholder_list(count: nat) -> Seq<char>
    decreases count,
{
    if count == 0 {
        Seq::empty()
    } else if count == 1 {
        seq!['?']
    } else {
        placeholder_list((count - 1) as nat) + seq![',', '?']
    }
}

/// `count` question marks with commas between them.
pub fn placeholders(count: usize) -> (r: String)
    ensures
        r@ == placeholder_list(count as nat),
{
    proof {
        reveal_strlit("?");
        reveal_strlit(",?");
    }
    let mut list = String::new();
    let mut i: usize = 0;
    while i < count
        invariant
            i <= count,
            list@ == placeholder_list(i as nat),
            "?"@ =~= seq!['?'],
            ",?"@ =~= seq![',', '?'],
        decreases count - i,
    {
        if i == 0 {
            list.append("?");
            assert(list@ =~= placeholder_list(1));
        } else {
            list.append(",?");
        }
        i = i + 1;
    }
    list
}

/// The order that puts the newest sessions first, by the columns that are there.
pub fn session_order(has_updated_at: bool, has_created_at: bool) -> (r: &'static str)
    ensures
        has_updated_at && has_created_at ==> r@ == "updated_at DESC, created_at DESC, id DESC"@,
        has_updated_at && !has_created_at ==> r@ == "updated_at DESC, id DESC"@,
        !has_updated_at && has_created_at ==> r@ == "created_at DESC, id DESC"@,
        !has_updated_at && !has_created_at ==> r@ == "id DESC"@,
{
    match (has_updated_at, has_created_at) {
        (true, true) => "updated_at DESC, created_at DESC, id DESC",
        (true, false) => "updated_at DESC, id DESC",
        (false, true) => "created_at DESC, id DESC",
        (false, false) => "id DESC",
    }
}

/// Of the stored servers whose addresses have one canonical form, each becomes the one with the
/// smallest identifier: that one remains, with the canonical address, and the others are deleted.
pub proof fn law_smallest_server_of_an_address_remains(
    tables: LegacyTables,
    stored: Seq<StoredServer>,
    plan: LegacyPlan,
    i: int,
)
    requires
        is_plan(tables, stored, plan),
        0 <= i < stored.len(),
        forall|a: int, b: int|
            0 <= a < b < stored.len() ==> (#[trigger] stored[a]).id != (#[trigger] stored[b]).id,
    ensures
        ({
            let url = server_url::canonical(stored[i].url@);
            let ids = plan.canonical_server_ids@;
            let id = ids[stored[i].id];
            &&& url is Ok
            &&& ids.contains_key(stored[i].id)
            &&& exists|k: int|
                0 <= k < stored.len() && (#[trigger] stored[k]).id == id && server_url::canonical(
                    stored[k].url@,
                ) == url
            &&& forall|j: int|
                0 <= j < stored.len() && server_url::canonical((#[trigger] stored[j]).url@) == url
                    ==> id <= stored[j].id
            &&& plan.canonical_server_urls@.contains_key(stored[i].id)
            &&& plan.canonical_server_urls@[stored[i].id]@ == url->Ok_0
            &&& plan.server_merge.duplicate_server_ids@.contains(stored[i].id) <==> id
                != stored[i].id
            &&& id == stored[i].id <==> exists|g: int|
                0 <= g < plan.server_merge.remaining.len() && (
                #[trigger] plan.server_merge.remaining[g]).id == stored[i].id
                    && plan.server_merge.remaining[g].canonical_url@ == url->Ok_0
        }),
{
    let servers = plan.servers@;
    let ids = plan.canonical_server_ids@;
    let merge = plan.server_merge;
    assert forall|a: int, b: int| 0 <= a < b < servers.len() implies (#[trigger] servers[a]).id != (
    #[trigger] servers[b]).id by {
        assert(stored[a].id != stored[b].id);
    }
    assert(servers[i].id == stored[i].id);
    let url = servers[i].canonical_url@;
    let id = ids[stored[i].id];
    assert(is_last_with_id(servers, i));
    assert(has_id(servers, stored[i].id));
    assert(is_canonical_id(servers, url, id));
    let k = choose|k: int|
        0 <= k < servers.len() && (#[trigger] servers[k]).id == id && servers[k].canonical_url@
            == url;
    assert(stored[k].id == id);
    assert forall|j: int|
        0 <= j < stored.len() && server_url::canonical((#[trigger] stored[j]).url@)
            == server_url::canonical(stored[i].url@) implies id <= stored[j].id by {
        assert(servers[j].canonical_url@ == url);
    }
    let keeps = |server: LegacyServer| remains(servers, server);
    let drops = |server: LegacyServer| !remains(servers, server);
    let to_id = |server: LegacyServer| server.id;
    assert(remains(servers, servers[i]) <==> id == stored[i].id);
    let dropped = servers.filter(drops);
    let deleted = merge.duplicate_server_ids@;
    assert(deleted == dropped.map_values(to_id));
    if id != stored[i].id {
        servers.lemma_filter_contains(drops, i);
        let d = choose|d: int| 0 <= d < dropped.len() && dropped[d] == servers[i];
        assert(deleted[d] == stored[i].id);
    }
    if deleted.contains(stored[i].id) {
        let d = choose|d: int| 0 <= d < deleted.len() && deleted[d] == stored[i].id;
        servers.lemma_filter_pred(drops, d);
        servers.lemma_filter_contains_rev(drops, dropped[d]);
        let a = choose|a: int| 0 <= a < servers.len() && servers[a] == dropped[d];
        assert(servers[a].id == servers[i].id);
        assert(a == i);
    }
    if id == stored[i].id {
        servers.lemma_filter_contains(keeps, i);
        let g = choose|g: int| 0 <= g < merge.remaining@.len() && merge.remaining@[g] == servers[i];
        assert(merge.remaining[g].id == stored[i].id);
    }
    if exists|g: int|
        0 <= g < merge.remaining.len() && (#[trigger] merge.remaining[g]).id == stored[i].id
            && merge.remaining[g].canonical_url@ == url {
        let g = choose|g: int|
            0 <= g < merge.remaining.len() && (#[trigger] merge.remaining[g]).id == stored[i].id
                && merge.remaining[g].canonical_url@ == url;
        servers.lemma_filter_pred(keeps, g);
        servers.lemma_filter_contains_rev(keeps, merge.remaining@[g]);
        let a = choose|a: int| 0 <= a < servers.len() && servers[a] == merge.remaining@[g];
        assert(servers[a].id == servers[i].id);
        assert(a == i);
    }
}

/// The server of a mapping is the one that the named server becomes, by its address; where the
/// mapping names none, it is the one with the canonical form of the address in the mapping.
pub proof fn law_mappings_belong_to_the_server_they_name(
    row: MappingRow,
    ids: Map<i64, i64>,
    urls: Map<i64, String>,
)
    ensures
        row.server_id matches Some(named) ==> {
            let server = if ids.contains_key(named) {
                ids[named]
            } else {
                named
            };
            &&& urls.contains_key(server) ==> resolved_url(true, row, ids, urls) == Some(
                urls[server]@,
            )
            &&& !urls.contains_key(server) ==> resolved_url(true, row, ids, urls) is None
        },
        row.server_id is None ==> resolved_url(true, row, ids, urls) == resolved_url(
            false,
            row,
            ids,
            urls,
        ),
        server_url::canonical(row.server_url@) matches Ok(url) ==> resolved_url(
            false,
            row,
            ids,
            urls,
        ) == Some(url),
        server_url::canonical(row.server_url@) is Err ==> resolved_url(false, row, ids, urls)
            is None,
{
}

/// The mappings of one owner to one server become the one with the smallest identifier. It is set to
/// the server that its own server becomes and to the canonical address, unless servers are not named
/// and it has that address already; exactly the others are deleted.
pub proof fn law_smallest_mapping_is_kept(
    on: Resolution,
    rows: Seq<MappingRow>,
    merges: Seq<MappingMerge>,
    g: int,
)
    requires
        are_merges_of(on, rows, merges),
        0 <= g < merges.len(),
        forall|a: int, b: int|
            0 <= a < b < rows.len() ==> (#[trigger] rows[a]).id != (#[trigger] rows[b]).id,
    ensures
        forall|i: int|
            0 <= i < rows.len() ==> {
                let belongs = (#[trigger] rows[i]).owner@ == merges[g].owner@ && resolved_url(
                    on.has_server_id,
                    rows[i],
                    on.ids,
                    on.urls,
                ) == Some(merges[g].canonical_url@);
                &&& belongs ==> merges[g].canonical_mapping_id <= rows[i].id
                &&& merges[g].canonical_mapping_id == rows[i].id ==> belongs
                &&& merges[g].duplicate_mapping_ids@.contains(rows[i].id) <==> belongs && rows[i].id
                    != merges[g].canonical_mapping_id
            },
        exists|i: int|
            {
                &&& 0 <= i < rows.len()
                &&& (#[trigger] rows[i]).id == merges[g].canonical_mapping_id
                &&& on.has_server_id ==> {
                    &&& merges[g].update matches Some(update)
                    &&& rows[i].server_id matches Some(named)
                    &&& on.ids.contains_key(named)
                    &&& update.server_id == Some(on.ids[named])
                    &&& update.server_url@ == merges[g].canonical_url@
                }
                &&& !on.has_server_id ==> match merges[g].update {
                    Some(update) => rows[i].server_url@ != merges[g].canonical_url@
                        && update.server_id is None && update.server_url@
                        == merges[g].canonical_url@,
                    None => rows[i].server_url@ == merges[g].canonical_url@,
                }
            },
{
    let merge = merges[g];
    let owner = merge.owner@;
    let url = merge.canonical_url@;
    let members = mappings_of(on, rows, owner, url);
    let wanted = rows.filter(|row: MappingRow| is_mapping_of(on, row, owner, url));
    assert(is_merge_of(on, members, merge));
    law_by_id_orders(wanted);
    assert(distinct_mappings(rows));
    lemma_kept_is_not_deleted(on, rows, merge);
    let first = lemma_member_place(on, rows, owner, url, 0);
    assert(rows[first].id == merge.canonical_mapping_id);
    let deleted = merge.duplicate_mapping_ids@;
    assert forall|i: int| 0 <= i < rows.len() implies {
        let belongs = (#[trigger] rows[i]).owner@ == owner && resolved_url(
            on.has_server_id,
            rows[i],
            on.ids,
            on.urls,
        ) == Some(url);
        &&& belongs ==> merge.canonical_mapping_id <= rows[i].id
        &&& merge.canonical_mapping_id == rows[i].id ==> belongs
        &&& deleted.contains(rows[i].id) <==> belongs && rows[i].id != merge.canonical_mapping_id
    } by {
        if is_mapping_of(on, rows[i], owner, url) {
            let k = lemma_place_in_merge(on, rows, merge, i);
            assert(members[0].id <= members[k].id);
            if rows[i].id != merge.canonical_mapping_id {
                assert(members.skip(1)[k - 1] == members[k]);
                assert(deleted[k - 1] == rows[i].id);
            }
        }
        if merge.canonical_mapping_id == rows[i].id && i != first {
            assert(rows[i].id != rows[first].id);
        }
        if deleted.contains(rows[i].id) {
            let d = choose|d: int| 0 <= d < deleted.len() && deleted[d] == rows[i].id;
            assert(members.skip(1)[d] == members[d + 1]);
            let a = lemma_member_place(on, rows, owner, url, d + 1);
            assert(rows[a].id == rows[i].id);
            assert(a == i);
        }
    }
}

/// Each mapping belongs to exactly one merge: the one for its owner and the address of its server.
pub proof fn law_each_mapping_has_one_merge(
    on: Resolution,
    rows: Seq<MappingRow>,
    merges: Seq<MappingMerge>,
    i: int,
)
    requires
        are_merges_of(on, rows, merges),
        0 <= i < rows.len(),
    ensures
        exists|g: int|
            {
                &&& 0 <= g < merges.len()
                &&& (#[trigger] merges[g]).owner@ == rows[i].owner@
                &&& resolved_url(on.has_server_id, rows[i], on.ids, on.urls) == Some(
                    merges[g].canonical_url@,
                )
                &&& forall|h: int|
                    0 <= h < merges.len() && (#[trigger] merges[h]).owner@ == rows[i].owner@
                        && merges[h].canonical_url@ == merges[g].canonical_url@ ==> h == g
            },
{
    assert(has_merge(on, merges, rows[i]));
    let g = choose|g: int|
        0 <= g < merges.len() && is_mapping_of(
            on,
            rows[i],
            (#[trigger] merges[g]).owner@,
            merges[g].canonical_url@,
        );
    assert forall|h: int|
        0 <= h < merges.len() && (#[trigger] merges[h]).owner@ == rows[i].owner@
            && merges[h].canonical_url@ == merges[g].canonical_url@ implies h == g by {
        if h < g {
            assert(!same_target(merges[h], merges[g]));
        }
        if g < h {
            assert(!same_target(merges[g], merges[h]));
        }
    }
    assert(merges[g].owner@ == rows[i].owner@);
}

/// Where mappings become one, a session of one of them is deleted exactly where an earlier one, of
/// the same user on the same device, belongs to one of them too. Where nothing becomes one, no session
/// is deleted.
pub proof fn law_sessions_are_deleted_only_for_newer_ones(
    sessions: Seq<SessionRow>,
    merge: MappingMerge,
    i: int,
)
    requires
        distinct_sessions(sessions),
        0 <= i < sessions.len(),
    ensures
        merge.duplicate_mapping_ids.len() == 0 ==> deleted_sessions(sessions, merge).len() == 0,
        merge.duplicate_mapping_ids.len() > 0 ==> (deleted_sessions(sessions, merge).contains(
            sessions[i].id,
        ) <==> {
            &&& sessions[i].mapping_id == merge.canonical_mapping_id
                || merge.duplicate_mapping_ids@.contains(sessions[i].mapping_id)
            &&& exists|j: int|
                {
                    &&& 0 <= j < i
                    &&& (#[trigger] sessions[j]).user_id@ == sessions[i].user_id@
                    &&& sessions[j].device_id@ == sessions[i].device_id@
                    &&& sessions[j].mapping_id == merge.canonical_mapping_id
                        || merge.duplicate_mapping_ids@.contains(sessions[j].mapping_id)
                }
        }),
{
    lemma_superseded_sessions(
        sessions,
        sessions.len() as int,
        merge.canonical_mapping_id,
        merge.duplicate_mapping_ids@,
        i,
    );
    let canonical = merge.canonical_mapping_id;
    let duplicates = merge.duplicate_mapping_ids@;
    if exists|j: int|
        {
            &&& 0 <= j < i
            &&& (#[trigger] sessions[j]).user_id@ == sessions[i].user_id@
            &&& sessions[j].device_id@ == sessions[i].device_id@
            &&& sessions[j].mapping_id == canonical || duplicates.contains(sessions[j].mapping_id)
        } {
        let j = choose|j: int|
            {
                &&& 0 <= j < i
                &&& (#[trigger] sessions[j]).user_id@ == sessions[i].user_id@
                &&& sessions[j].device_id@ == sessions[i].device_id@
                &&& sessions[j].mapping_id == canonical || duplicates.contains(
                    sessions[j].mapping_id,
                )
            };
        assert(is_session_of(sessions[j], canonical, duplicates));
        assert(same_device(sessions[j], sessions[i]));
    }
}

/// A plan changes exactly the tables that there are, and sessions take the addresses over from their
/// mappings where both are stored.
pub proof fn law_plans_cover_the_tables_that_exist(
    tables: LegacyTables,
    stored: Seq<StoredServer>,
    plan: LegacyPlan,
)
    requires
        is_plan(tables, stored, plan),
    ensures
        plan.servers.len() == stored.len(),
        plan.admins is Some <==> tables.server_admins is Some,
        plan.mappings is Some <==> tables.server_mappings is Some,
        plan.media is Some <==> tables.media_mappings is Some,
        plan.superseded_sessions is Some <==> tables.authorization_sessions is Some
            && tables.server_mappings is Some,
        plan.copy_urls_to_sessions <==> tables.authorization_sessions is Some
            && tables.server_mappings is Some,
        plan.superseded_sessions matches Some(deleted) ==> deleted.len() == plan.mappings->0.len(),
{
}

/// What an error says tells the number of the server or the mapping, and the address that cannot be
/// read.
pub proof fn law_errors_tell_what_they_are_about(error: LegacyError)
    ensures
        error matches LegacyError::InvalidServerUrl { server_id, url, .. } ==> is_behind(
            decimal::decimal(server_id as int) + ": "@ + url@,
            error_text(error),
        ),
        error matches LegacyError::MissingCanonicalUrl { server_id } ==> is_behind(
            decimal::decimal(server_id as int),
            error_text(error),
        ),
        error matches LegacyError::InvalidMappingUrl { mapping_id, url, .. } ==> is_behind(
            decimal::decimal(mapping_id as int) + ": "@ + url@,
            error_text(error),
        ),
        error matches LegacyError::MissingServerId { mapping_id, .. } ==> is_behind(
            decimal::decimal(mapping_id as int),
            error_text(error),
        ),
{
    let text = error_text(error);
    match error {
        LegacyError::InvalidServerUrl { server_id, url, .. } => {
            let tail = decimal::decimal(server_id as int) + ": "@ + url@;
            assert(text.skip(text.len() - tail.len()) =~= tail);
        },
        LegacyError::MissingCanonicalUrl { server_id } => {
            let tail = decimal::decimal(server_id as int);
            assert(text.skip(text.len() - tail.len()) =~= tail);
        },
        LegacyError::InvalidMappingUrl { mapping_id, url, .. } => {
            let tail = decimal::decimal(mapping_id as int) + ": "@ + url@;
            assert(text.skip(text.len() - tail.len()) =~= tail);
        },
        LegacyError::MissingServerId { mapping_id, .. } => {
            let tail = decimal::decimal(mapping_id as int);
            assert(text.skip(text.len() - tail.len()) =~= tail);
        },
    }
}

/// Whether a text ends with another one.
pub open spec fn is_behind(tail: Seq<char>, text: Seq<char>) -> bool {
    tail.len() <= text.len() && text.skip(text.len() - tail.len()) == tail
}

/// A list of placeholders has a question mark at every other place, from the first to the last, and
/// a comma between each two.
pub proof fn law_placeholders_are_separated(count: nat)
    ensures
        count == 0 ==> placeholder_list(count).len() == 0,
        count > 0 ==> placeholder_list(count).len() == 2 * count - 1,
        forall|i: int|
            0 <= i < placeholder_list(count).len() ==> #[trigger] placeholder_list(count)[i] == if i
                % 2 == 0 {
                '?'
            } else {
                ','
            },
    decreases count,
{
    if count > 1 {
        law_placeholders_are_separated((count - 1) as nat);
    }
}

} // verus!
