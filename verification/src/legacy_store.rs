//! What a plan makes of a store of servers, accounts, mappings and sessions.

use crate::legacy_server_identity as legacy;
use crate::legacy_server_identity::{
    AdminRow, LegacyError, LegacyPlan, LegacyServer, LegacyTables, MappingMerge,
    MappingRow, MappingTable, Resolution, ServerMerge, SessionRow, StoredServer,
};
use crate::server_url;
use vstd::prelude::*;
use vstd::string::*;

verus! {

/// A stored server.
pub ghost struct ServerRecord {
    pub id: i64,
    pub url: Seq<char>,
}

/// A stored mapping.
pub ghost struct MappingRecord {
    pub id: i64,
    pub owner: Seq<char>,
    pub server_id: Option<i64>,
    pub server_url: Seq<char>,
}

/// A table of stored mappings.
pub ghost struct MappingRecords {
    /// Whether the table names servers by identifier.
    pub has_server_id: bool,
    pub rows: Seq<MappingRecord>,
}

/// A stored authorization session.
pub ghost struct SessionRecord {
    pub id: i64,
    pub user_id: Seq<char>,
    pub mapping_id: i64,
    pub device_id: Seq<char>,
    pub server_url: Seq<char>,
}

/// What is stored, as far as the tables exist.
pub ghost struct LegacyStore {
    pub servers: Option<Seq<ServerRecord>>,
    pub admins: Option<Seq<AdminRow>>,
    pub mappings: Option<MappingRecords>,
    pub media: Option<MappingRecords>,
    pub sessions: Option<Seq<SessionRecord>>,
}

/// The stored servers of some rows.
pub open spec fn stored_servers(rows: Seq<StoredServer>) -> Seq<ServerRecord> {
    rows.map_values(|row: StoredServer| ServerRecord { id: row.id, url: row.url@ })
}

/// The stored mapping of a row.
pub open spec fn stored_mapping(row: MappingRow) -> MappingRecord {
    MappingRecord {
        id: row.id,
        owner: row.owner@,
        server_id: row.server_id,
        server_url: row.server_url@,
    }
}

/// The stored mappings of some rows.
pub open spec fn stored_mappings(rows: Seq<MappingRow>) -> Seq<MappingRecord> {
    rows.map_values(|row: MappingRow| stored_mapping(row))
}

/// Whether a table of mappings was read from a stored one.
pub open spec fn holds_mappings(
    records: Option<MappingRecords>,
    table: Option<MappingTable>,
) -> bool {
    match table {
        Some(table) => records == Some(
            MappingRecords {
                has_server_id: table.has_server_id,
                rows: stored_mappings(table.rows@),
            },
        ),
        None => records is None,
    }
}

/// Whether a session was read from a stored one.
pub open spec fn holds_session(record: SessionRecord, row: SessionRow) -> bool {
    &&& record.id == row.id
    &&& record.user_id == row.user_id@
    &&& record.mapping_id == row.mapping_id
    &&& record.device_id == row.device_id@
}

/// Whether sessions were read from stored ones.
pub open spec fn holds_sessions(
    records: Option<Seq<SessionRecord>>,
    rows: Option<Vec<SessionRow>>,
) -> bool {
    match rows {
        Some(rows) => {
            &&& records matches Some(records)
            &&& records.len() == rows.len()
            &&& forall|i: int| 0 <= i < rows.len() ==> holds_session(records[i], #[trigger] rows[i])
        },
        None => records is None,
    }
}

/// Whether tables were read from a store.
pub open spec fn holds(store: LegacyStore, tables: LegacyTables) -> bool {
    &&& match tables.servers {
        Some(rows) => store.servers == Some(stored_servers(rows@)),
        None => store.servers is None,
    }
    &&& match tables.server_admins {
        Some(rows) => store.admins == Some(rows@),
        None => store.admins is None,
    }
    &&& holds_mappings(store.mappings, tables.server_mappings)
    &&& holds_mappings(store.media, tables.media_mappings)
    &&& holds_sessions(store.sessions, tables.authorization_sessions)
}

/// The servers after a merge.
pub open spec fn servers_after(merge: ServerMerge) -> Seq<ServerRecord> {
    merge.remaining@.map_values(
        |server: LegacyServer| ServerRecord { id: server.id, url: server.canonical_url@ },
    )
}

/// The server of an account after it was given to a server, if it was.
pub open spec fn admin_server(admin_by_server: Map<i64, i64>, admin: AdminRow) -> i64 {
    if exists|server: i64| #[trigger]
        admin_by_server.contains_key(server) && admin_by_server[server] == admin.id {
        choose|server: i64| #[trigger]
            admin_by_server.contains_key(server) && admin_by_server[server] == admin.id
    } else {
        admin.server_id
    }
}

/// The accounts after some were deleted and others given to servers.
pub open spec fn admins_after(
    rows: Seq<AdminRow>,
    duplicates: Seq<i64>,
    admin_by_server: Map<i64, i64>,
) -> Seq<AdminRow> {
    rows.filter(|row: AdminRow| !duplicates.contains(row.id)).map_values(
        |row: AdminRow|
            AdminRow { id: row.id, server_id: admin_server(admin_by_server, row) },
    )
}

/// A mapping after it was changed, if it was.
pub open spec fn mapping_after(merges: Seq<MappingMerge>, record: MappingRecord) -> MappingRecord {
    if legacy::is_kept(merges, record.id) {
        let merge = merges[choose|g: int|
            0 <= g < merges.len() && (#[trigger] merges[g]).canonical_mapping_id == record.id];
        match merge.update {
            Some(update) => MappingRecord {
                server_id: if update.server_id is Some {
                    update.server_id
                } else {
                    record.server_id
                },
                server_url: update.server_url@,
                ..record
            },
            None => record,
        }
    } else {
        record
    }
}

/// The mappings after some were deleted and others changed.
pub open spec fn mappings_after(
    records: Seq<MappingRecord>,
    merges: Seq<MappingMerge>,
) -> Seq<MappingRecord> {
    records.filter(|record: MappingRecord| !legacy::is_deleted(merges, record.id)).map_values(
        |record: MappingRecord| mapping_after(merges, record),
    )
}

/// A table of mappings after its merges.
pub open spec fn table_after(
    records: Option<MappingRecords>,
    merges: Option<Vec<MappingMerge>>,
) -> Option<MappingRecords> {
    match (records, merges) {
        (Some(records), Some(merges)) => Some(
            MappingRecords { rows: mappings_after(records.rows, merges@), ..records },
        ),
        _ => records,
    }
}

/// Whether a mapping with an identifier is stored.
pub open spec fn has_mapping(records: Seq<MappingRecord>, id: i64) -> bool {
    exists|i: int| 0 <= i < records.len() && (#[trigger] records[i]).id == id
}

/// The address of the mapping with an identifier.
pub open spec fn mapping_url(records: Seq<MappingRecord>, id: i64) -> Seq<char> {
    records[choose|i: int| 0 <= i < records.len() && (#[trigger] records[i]).id == id].server_url
}

/// A session after it has moved to the mapping that is kept and taken over its address.
pub open spec fn session_after(
    record: SessionRecord,
    merges: Seq<MappingMerge>,
    mappings: Seq<MappingRecord>,
) -> SessionRecord {
    let mapping_id = legacy::new_mapping(merges, record.mapping_id);
    SessionRecord {
        mapping_id,
        server_url: if has_mapping(mappings, mapping_id) {
            mapping_url(mappings, mapping_id)
        } else {
            record.server_url
        },
        ..record
    }
}

/// Whether a session is deleted.
pub open spec fn is_dropped(deleted: Seq<Vec<i64>>, id: i64) -> bool {
    exists|g: int| 0 <= g < deleted.len() && (#[trigger] deleted[g])@.contains(id)
}

/// The sessions after some were deleted and others have moved, given the mappings by then.
pub open spec fn sessions_after(
    records: Option<Seq<SessionRecord>>,
    plan: LegacyPlan,
    mappings: Option<MappingRecords>,
) -> Option<Seq<SessionRecord>> {
    match (records, plan.superseded_sessions, plan.mappings, mappings) {
        (Some(records), Some(deleted), Some(merges), Some(mappings)) => Some(
            records.filter(|record: SessionRecord| !is_dropped(deleted@, record.id)).map_values(
                |record: SessionRecord| session_after(record, merges@, mappings.rows),
            ),
        ),
        _ => records,
    }
}

/// A store after a plan was carried out.
pub open spec fn after(store: LegacyStore, plan: LegacyPlan) -> LegacyStore {
    let mappings = table_after(store.mappings, plan.mappings);
    LegacyStore {
        servers: Some(servers_after(plan.server_merge)),
        admins: match (store.admins, plan.admins) {
            (Some(rows), Some(merge)) => Some(
                admins_after(rows, merge.duplicate_admin_ids@, merge.admin_by_server@),
            ),
            _ => store.admins,
        },
        mappings,
        media: table_after(store.media, plan.media),
        sessions: sessions_after(store.sessions, plan, mappings),
    }
}

/// Where the elements that a filter keeps stood before.
proof fn lemma_filter_places<A>(all: Seq<A>, keeps: spec_fn(A) -> bool) -> (places: Seq<int>)
    ensures
        places.len() == all.filter(keeps).len(),
        forall|i: int|
            0 <= i < places.len() ==> 0 <= (#[trigger] places[i]) < all.len()
                && all.filter(keeps)[i] == all[places[i]] && keeps(all[places[i]]),
        forall|i: int, j: int| 0 <= i < j < places.len() ==> places[i] < places[j],
    decreases all.len(),
{
    reveal(Seq::filter);
    if all.len() == 0 {
        Seq::empty()
    } else {
        let rest = all.drop_last();
        let places = lemma_filter_places(rest, keeps);
        if keeps(all.last()) {
            places.push(all.len() - 1)
        } else {
            places
        }
    }
}

proof fn lemma_filter_keeps_all<A>(all: Seq<A>, keeps: spec_fn(A) -> bool)
    requires
        forall|i: int| 0 <= i < all.len() ==> keeps(#[trigger] all[i]),
    ensures
        all.filter(keeps) == all,
    decreases all.len(),
{
    reveal(Seq::filter);
    if all.len() > 0 {
        lemma_filter_keeps_all(all.drop_last(), keeps);
        assert(all.drop_last().push(all.last()) =~= all);
    }
}

/// Whether servers that were read are those that remain of others.
spec fn are_remaining(remaining: Seq<LegacyServer>, servers: Seq<LegacyServer>) -> bool {
    &&& servers.len() == remaining.len()
    &&& forall|i: int|
        0 <= i < servers.len() ==> (#[trigger] servers[i]).id == remaining[i].id
            && servers[i].canonical_url@ == remaining[i].canonical_url@
}

/// Each server becomes one that remains, and that one becomes itself.
proof fn lemma_servers_settle(
    servers: Seq<LegacyServer>,
    ids: Map<i64, i64>,
    urls: Map<i64, String>,
    merge: ServerMerge,
    again: Seq<LegacyServer>,
    ids_again: Map<i64, i64>,
    urls_again: Map<i64, String>,
)
    requires
        legacy::distinct_servers(servers),
        legacy::are_canonical_ids(servers, ids),
        legacy::are_canonical_urls(servers, urls),
        legacy::is_server_merge(servers, merge),
        are_remaining(merge.remaining@, again),
        legacy::are_canonical_ids(again, ids_again),
        legacy::are_canonical_urls(again, urls_again),
    ensures
        forall|id: i64| #[trigger]
            ids.contains_key(id) ==> {
                &&& ids_again.contains_key(ids[id])
                &&& urls_again.contains_key(ids[id])
                &&& urls.contains_key(ids[id])
                &&& urls_again[ids[id]]@ == urls[ids[id]]@
            },
        forall|id: i64| #[trigger]
            ids_again.contains_key(id) ==> ids_again[id] == id && ids.contains_key(id),
        forall|i: int| 0 <= i < again.len() ==> #[trigger] legacy::remains(again, again[i]),
        legacy::distinct_servers(again),
{
    legacy::law_remaining_servers_differ(servers, merge);
    let keeps = |server: LegacyServer| legacy::remains(servers, server);
    let remaining = merge.remaining@;
    let places = lemma_filter_places(servers, keeps);
    assert forall|i: int, j: int| 0 <= i < j < again.len() implies (#[trigger] again[i]).id != (
    #[trigger] again[j]).id by {
        assert(servers[places[i]].id != servers[places[j]].id);
    }
    assert forall|i: int| 0 <= i < again.len() implies #[trigger] legacy::remains(
        again,
        again[i],
    ) by {
        assert(again[i].id == again[i].id);
        assert forall|j: int|
            0 <= j < again.len() && (#[trigger] again[j]).canonical_url@
                == again[i].canonical_url@ implies again[i].id <= again[j].id by {
            if i < j {
                assert(remaining[i].canonical_url@ != remaining[j].canonical_url@);
            } else if j < i {
                assert(remaining[j].canonical_url@ != remaining[i].canonical_url@);
            }
        }
    }
    assert forall|id: i64| #[trigger] ids_again.contains_key(id) implies ids_again[id] == id
        && ids.contains_key(id) by {
        assert(legacy::has_id(again, id));
        let i = choose|i: int| 0 <= i < again.len() && (#[trigger] again[i]).id == id;
        assert(legacy::is_last_with_id(again, i));
        assert(legacy::is_canonical_id(again, again[i].canonical_url@, ids_again[id]));
        assert(legacy::remains(again, again[i]));
        let k = choose|k: int|
            0 <= k < again.len() && (#[trigger] again[k]).id == ids_again[id]
                && again[k].canonical_url@ == again[i].canonical_url@;
        assert(ids_again[id] <= again[i].id);
        assert(again[i].id <= again[k].id);
        assert(servers[places[i]].id == id);
        assert(legacy::has_id(servers, id));
    }
    assert forall|id: i64| #[trigger] ids.contains_key(id) implies {
        &&& ids_again.contains_key(ids[id])
        &&& urls_again.contains_key(ids[id])
        &&& urls.contains_key(ids[id])
        &&& urls_again[ids[id]]@ == urls[ids[id]]@
    } by {
        assert(legacy::has_id(servers, id));
        let i = choose|i: int| 0 <= i < servers.len() && (#[trigger] servers[i]).id == id;
        legacy::law_every_server_becomes_a_remaining_one(servers, ids, merge, i);
        let g = choose|g: int|
            0 <= g < merge.remaining.len() && (#[trigger] merge.remaining[g]).id
                == ids[servers[i].id] && merge.remaining[g].canonical_url@
                == servers[i].canonical_url@;
        assert(again[g].id == ids[id]);
        assert(legacy::has_id(again, ids[id]));
        assert(servers[places[g]].id == ids[id]);
        assert(legacy::has_id(servers, ids[id]));
        assert(legacy::is_last_with_id(again, g));
        assert(legacy::is_last_with_id(servers, places[g]));
        assert(urls_again[again[g].id]@ == again[g].canonical_url@);
        assert(urls[servers[places[g]].id]@ == servers[places[g]].canonical_url@);
    }
}

/// An account that is not deleted belongs afterwards to the server that its own server becomes.
proof fn lemma_admin_server(rows: Seq<AdminRow>, ids: Map<i64, i64>, i: int)
    requires
        legacy::ascending_admins(rows),
        0 <= i < rows.len(),
        !legacy::surplus_admins(rows, ids).contains(rows[i].id),
    ensures
        admin_server(legacy::merged_admins(rows, ids), rows[i]) == legacy::merged_server(
            ids,
            rows[i].server_id,
        ),
        ids.contains_key(rows[i].server_id) ==> {
            &&& legacy::merged_admins(rows, ids).contains_key(ids[rows[i].server_id])
            &&& legacy::merged_admins(rows, ids)[ids[rows[i].server_id]] == rows[i].id
        },
{
    legacy::law_one_admin_per_server(rows, ids);
    let kept = legacy::merged_admins(rows, ids);
    let admin = rows[i];
    if ids.contains_key(admin.server_id) {
        assert(kept.contains_key(ids[admin.server_id]));
    }
    assert forall|server: i64| #[trigger]
        kept.contains_key(server) && kept[server] == admin.id implies ids.contains_key(
        admin.server_id,
    ) && ids[admin.server_id] == server by {
        let k = choose|k: int|
            0 <= k < rows.len() && (#[trigger] rows[k]).id == kept[server] && ids.contains_key(
                rows[k].server_id,
            ) && ids[rows[k].server_id] == server;
        if k < i {
            assert(rows[k].id < rows[i].id);
        } else if i < k {
            assert(rows[i].id < rows[k].id);
        }
    }
}

/// Merging the accounts again changes nothing.
proof fn lemma_admins_settle(rows: Seq<AdminRow>, ids: Map<i64, i64>, ids_again: Map<i64, i64>)
    requires
        legacy::ascending_admins(rows),
        forall|id: i64| #[trigger]
            ids_again.contains_key(id) ==> ids_again[id] == id && ids.contains_key(id),
    ensures
        ({
            let again = admins_after(
                rows,
                legacy::surplus_admins(rows, ids),
                legacy::merged_admins(rows, ids),
            );
            &&& legacy::ascending_admins(again)
            &&& admins_after(
                again,
                legacy::surplus_admins(again, ids_again),
                legacy::merged_admins(again, ids_again),
            ) == again
        }),
{
    let surplus = legacy::surplus_admins(rows, ids);
    let kept = legacy::merged_admins(rows, ids);
    let keeps = |row: AdminRow| !surplus.contains(row.id);
    let again = admins_after(rows, surplus, kept);
    let places = lemma_filter_places(rows, keeps);
    assert forall|i: int| 0 <= i < again.len() implies {
        let row = rows[places[i]];
        &&& (#[trigger] again[i]).id == row.id
        &&& again[i].server_id == legacy::merged_server(ids, row.server_id)
        &&& ids.contains_key(again[i].server_id) && ids.contains_key(row.server_id)
            ==> kept.contains_key(again[i].server_id) && kept[again[i].server_id] == row.id
    } by {
        lemma_admin_server(rows, ids, places[i]);
    }
    assert forall|i: int, j: int| 0 <= i < j < again.len() implies (#[trigger] again[i]).id < (
    #[trigger] again[j]).id by {
        assert(rows[places[i]].id < rows[places[j]].id);
    }
    legacy::law_one_admin_per_server(again, ids_again);
    let surplus_again = legacy::surplus_admins(again, ids_again);
    let kept_again = legacy::merged_admins(again, ids_again);
    assert forall|i: int| 0 <= i < again.len() implies !surplus_again.contains(
        (#[trigger] again[i]).id,
    ) by {
        if surplus_again.contains(again[i].id) {
            let k = choose|k: int|
                0 <= k < again.len() && (#[trigger] again[k]).id == again[i].id
                    && ids_again.contains_key(again[k].server_id);
            if k < i {
                assert(again[k].id < again[i].id);
            } else if i < k {
                assert(again[i].id < again[k].id);
            }
            let server = again[i].server_id;
            assert(ids_again.contains_key(server));
            assert(kept_again.contains_key(ids_again[server]));
            let m = choose|m: int|
                0 <= m < again.len() && (#[trigger] again[m]).id == kept_again[server]
                    && ids_again.contains_key(again[m].server_id)
                    && ids_again[again[m].server_id] == server;
            assert(again[m].server_id == server);
            assert(kept[server] == again[i].id);
            assert(kept[server] == again[m].id);
        }
    }
    let keeps_again = |row: AdminRow| !surplus_again.contains(row.id);
    lemma_filter_keeps_all(again, keeps_again);
    assert forall|i: int| 0 <= i < again.len() implies admin_server(
        kept_again,
        #[trigger] again[i],
    ) == again[i].server_id by {
        lemma_admin_server(again, ids_again, i);
    }
    assert(admins_after(again, surplus_again, kept_again) =~= again);
}

/// What a mapping that is kept becomes.
spec fn settled(on: Resolution, row: MappingRow) -> MappingRecord {
    MappingRecord {
        id: row.id,
        owner: row.owner@,
        server_id: if on.has_server_id {
            Some(on.ids[row.server_id->0])
        } else {
            row.server_id
        },
        server_url: legacy::resolved_url(on.has_server_id, row, on.ids, on.urls)->0,
    }
}

/// The merge that keeps a mapping which is not deleted, and what the mapping becomes.
proof fn lemma_mapping_settles(
    on: Resolution,
    rows: Seq<MappingRow>,
    merges: Seq<MappingMerge>,
    i: int,
) -> (g: int)
    requires
        legacy::distinct_mappings(rows),
        legacy::are_merges_of(on, rows, merges),
        0 <= i < rows.len(),
        !legacy::is_deleted(merges, rows[i].id),
    ensures
        0 <= g < merges.len(),
        merges[g].canonical_mapping_id == rows[i].id,
        legacy::is_mapping_of(on, rows[i], merges[g].owner@, merges[g].canonical_url@),
        legacy::can_keep(on, rows[i]),
        mapping_after(merges, stored_mapping(rows[i])) == settled(on, rows[i]),
{
    legacy::law_no_orphaned_session(on, rows, merges, i);
    let id = rows[i].id;
    let g = choose|g: int|
        0 <= g < merges.len() && (#[trigger] merges[g]).canonical_mapping_id == id;
    let members = legacy::mappings_of(on, rows, merges[g].owner@, merges[g].canonical_url@);
    assert(legacy::is_merge_of(on, members, merges[g]));
    let k = legacy::lemma_member_place(
        on,
        rows,
        merges[g].owner@,
        merges[g].canonical_url@,
        0,
    );
    if k < i {
        assert(rows[k].id != rows[i].id);
    } else if i < k {
        assert(rows[i].id != rows[k].id);
    }
    assert(members[0] == rows[i]);
    g
}

/// Mappings that are not deleted are of different owners or servers.
proof fn lemma_settled_mappings_differ(
    on: Resolution,
    rows: Seq<MappingRow>,
    merges: Seq<MappingMerge>,
    i: int,
    j: int,
)
    requires
        legacy::distinct_mappings(rows),
        legacy::are_merges_of(on, rows, merges),
        0 <= i < rows.len(),
        0 <= j < rows.len(),
        i != j,
        !legacy::is_deleted(merges, rows[i].id),
        !legacy::is_deleted(merges, rows[j].id),
    ensures
        settled(on, rows[i]).owner != settled(on, rows[j]).owner || settled(on, rows[i]).server_url
            != settled(on, rows[j]).server_url,
{
    let g = lemma_mapping_settles(on, rows, merges, i);
    let h = lemma_mapping_settles(on, rows, merges, j);
    if i < j {
        assert(rows[i].id != rows[j].id);
    } else {
        assert(rows[j].id != rows[i].id);
    }
    if g < h {
        assert(!legacy::same_target(merges[g], merges[h]));
    } else if h < g {
        assert(!legacy::same_target(merges[h], merges[g]));
    }
}

/// Whether a table is in order: each mapping has the address of its server, and no two are of the
/// same owner and server.
pub open spec fn is_settled(on: Resolution, rows: Seq<MappingRow>) -> bool {
    &&& legacy::distinct_mappings(rows)
    &&& forall|i: int|
        0 <= i < rows.len() ==> {
            &&& legacy::resolved_url(on.has_server_id, #[trigger] rows[i], on.ids, on.urls) == Some(
                rows[i].server_url@,
            )
            &&& legacy::can_keep(on, rows[i])
            &&& on.has_server_id ==> on.ids[rows[i].server_id->0] == rows[i].server_id->0
        }
    &&& forall|i: int, j: int|
        0 <= i < j < rows.len() ==> (#[trigger] rows[i]).owner@ != (#[trigger] rows[j]).owner@
            || rows[i].server_url@ != rows[j].server_url@
}

/// A table is in order after its merges.
proof fn lemma_table_settles(
    on: Resolution,
    rows: Seq<MappingRow>,
    merges: Seq<MappingMerge>,
    on_again: Resolution,
    again: Seq<MappingRow>,
)
    requires
        legacy::distinct_mappings(rows),
        legacy::are_merges_of(on, rows, merges),
        stored_mappings(again) == mappings_after(stored_mappings(rows), merges),
        on_again.has_server_id == on.has_server_id,
        forall|id: i64| #[trigger]
            on.ids.contains_key(id) ==> {
                &&& on_again.ids.contains_key(on.ids[id])
                &&& on_again.urls.contains_key(on.ids[id])
                &&& on.urls.contains_key(on.ids[id])
                &&& on_again.urls[on.ids[id]]@ == on.urls[on.ids[id]]@
            },
        forall|id: i64| #[trigger] on_again.ids.contains_key(id) ==> on_again.ids[id] == id,
        !on.has_server_id ==> forall|g: int|
            0 <= g < merges.len() ==> server_url::is_canonical((#[trigger] merges[g]).canonical_url@),
    ensures
        is_settled(on_again, again),
{
    let records = stored_mappings(rows);
    let keeps = |record: MappingRecord| !legacy::is_deleted(merges, record.id);
    let places = lemma_filter_places(records, keeps);
    let after = mappings_after(records, merges);
    assert(again.len() == after.len()) by {
        assert(stored_mappings(again).len() == again.len());
    }
    assert forall|i: int| 0 <= i < again.len() implies {
        &&& stored_mapping(#[trigger] again[i]) == settled(on, rows[places[i]])
        &&& legacy::resolved_url(on_again.has_server_id, again[i], on_again.ids, on_again.urls)
            == Some(again[i].server_url@)
        &&& legacy::can_keep(on_again, again[i])
        &&& on_again.has_server_id ==> on_again.ids[again[i].server_id->0] == again[i].server_id->0
    } by {
        let row = rows[places[i]];
        assert(records[places[i]] == stored_mapping(row));
        assert(stored_mappings(again)[i] == stored_mapping(again[i]));
        let g = lemma_mapping_settles(on, rows, merges, places[i]);
        assert(after[i] == mapping_after(merges, records.filter(keeps)[i]));
        assert(stored_mapping(again[i]) == settled(on, row));
        if on.has_server_id {
            assert(on.ids.contains_key(row.server_id->0));
            assert(again[i].server_id == Some(on.ids[row.server_id->0]));
        } else {
            assert(again[i].server_url@ == merges[g].canonical_url@);
            assert(server_url::is_canonical(merges[g].canonical_url@));
        }
    }
    assert forall|i: int, j: int| 0 <= i < j < again.len() implies (#[trigger] again[i]).owner@ != (
    #[trigger] again[j]).owner@ || again[i].server_url@ != again[j].server_url@ by {
        lemma_settled_mappings_differ(on, rows, merges, places[i], places[j]);
    }
    assert forall|i: int, j: int| 0 <= i < j < again.len() implies (#[trigger] again[i]).id != (
    #[trigger] again[j]).id by {
        assert(rows[places[i]].id != rows[places[j]].id);
    }
}

/// Merging a table that is in order deletes nothing.
proof fn lemma_settled_table_has_no_duplicates(
    on: Resolution,
    rows: Seq<MappingRow>,
    merges: Seq<MappingMerge>,
    g: int,
)
    requires
        is_settled(on, rows),
        legacy::are_merges_of(on, rows, merges),
        0 <= g < merges.len(),
    ensures
        merges[g].duplicate_mapping_ids.len() == 0,
{
    let merge = merges[g];
    let members = legacy::mappings_of(on, rows, merge.owner@, merge.canonical_url@);
    assert(legacy::is_merge_of(on, members, merge));
    if merge.duplicate_mapping_ids.len() > 0 {
        assert(merge.duplicate_mapping_ids@[0] == members.skip(1)[0].id);
        let a = legacy::lemma_member_place(on, rows, merge.owner@, merge.canonical_url@, 0);
        let b = legacy::lemma_member_place(on, rows, merge.owner@, merge.canonical_url@, 1);
        assert(rows[a].server_url@ == merge.canonical_url@);
        assert(rows[b].server_url@ == merge.canonical_url@);
        if a < b {
            assert(rows[a].owner@ != rows[b].owner@ || rows[a].server_url@ != rows[b].server_url@);
        } else if b < a {
            assert(rows[b].owner@ != rows[a].owner@ || rows[b].server_url@ != rows[a].server_url@);
        }
        legacy::lemma_kept_is_not_deleted(on, rows, merge);
        assert(merge.duplicate_mapping_ids@.contains(merge.canonical_mapping_id));
    }
}

/// Merging a table that is in order changes nothing.
proof fn lemma_settled_table_stays(
    on: Resolution,
    rows: Seq<MappingRow>,
    merges: Seq<MappingMerge>,
)
    requires
        is_settled(on, rows),
        legacy::are_merges_of(on, rows, merges),
    ensures
        mappings_after(stored_mappings(rows), merges) == stored_mappings(rows),
        forall|g: int|
            0 <= g < merges.len() ==> (#[trigger] merges[g]).duplicate_mapping_ids.len() == 0,
        forall|id: i64| !#[trigger] legacy::is_deleted(merges, id),
{
    assert forall|g: int| 0 <= g < merges.len() implies (
    #[trigger] merges[g]).duplicate_mapping_ids.len() == 0 by {
        lemma_settled_table_has_no_duplicates(on, rows, merges, g);
    }
    let records = stored_mappings(rows);
    let keeps = |record: MappingRecord| !legacy::is_deleted(merges, record.id);
    lemma_filter_keeps_all(records, keeps);
    assert forall|i: int| 0 <= i < records.len() implies mapping_after(
        merges,
        #[trigger] records[i],
    ) == records[i] by {
        let g = lemma_mapping_settles(on, rows, merges, i);
        assert(records[i] == stored_mapping(rows[i]));
    }
    assert(mappings_after(records, merges) =~= records);
}

/// A table that is in order can be merged.
proof fn lemma_settled_table_can_be_merged(
    kind: legacy::MappingKind,
    on: Resolution,
    rows: Seq<MappingRow>,
    error: LegacyError,
)
    requires
        is_settled(on, rows),
    ensures
        !legacy::is_merge_error(kind, on, rows, error),
{
    if legacy::is_merge_error(kind, on, rows, error) {
        if exists|i: int|
            0 <= i < rows.len() && legacy::resolved_url(
                on.has_server_id,
                #[trigger] rows[i],
                on.ids,
                on.urls,
            ) is None {
        } else {
            let (owner, url) = choose|owner: Seq<char>, url: Seq<char>|
                {
                    let members = #[trigger] legacy::mappings_of(on, rows, owner, url);
                    &&& members.len() > 0
                    &&& !legacy::can_keep(on, members[0])
                    &&& error == (LegacyError::MissingServerId { kind, mapping_id: members[0].id })
                };
            let i = legacy::lemma_member_place(on, rows, owner, url, 0);
            assert(legacy::can_keep(on, rows[i]));
        }
    }
}

/// Whether tables are as they are read: no identifier occurs twice in a table, and accounts stand
/// in the order of theirs.
pub open spec fn are_valid(tables: LegacyTables) -> bool {
    &&& tables.servers matches Some(rows) ==> forall|i: int, j: int|
        0 <= i < j < rows.len() ==> (#[trigger] rows[i]).id != (#[trigger] rows[j]).id
    &&& tables.server_admins matches Some(rows) ==> legacy::ascending_admins(rows@)
    &&& tables.server_mappings matches Some(table) ==> legacy::distinct_mappings(table.rows@)
    &&& tables.media_mappings matches Some(table) ==> legacy::distinct_mappings(table.rows@)
}

/// Whether the addresses that the merges of a table set are canonical, where the table does not
/// name the servers that have them.
pub open spec fn is_canonical_table(
    table: Option<MappingTable>,
    merges: Option<Vec<MappingMerge>>,
) -> bool {
    table matches Some(table) ==> (merges matches Some(merges) ==> (!table.has_server_id
        ==> forall|g: int|
        0 <= g < merges.len() ==> server_url::is_canonical((#[trigger] merges[g]).canonical_url@)))
}

/// Whether the addresses that a plan sets are canonical.
pub open spec fn sets_canonical_urls(tables: LegacyTables, plan: LegacyPlan) -> bool {
    &&& forall|i: int|
        0 <= i < plan.server_merge.remaining.len() ==> server_url::is_canonical(
            (#[trigger] plan.server_merge.remaining[i]).canonical_url@,
        )
    &&& is_canonical_table(tables.server_mappings, plan.mappings)
    &&& is_canonical_table(tables.media_mappings, plan.media)
}

/// Whether a stored address, if it can be read, is that of an HTTP server whose host can be read
/// again.
pub open spec fn is_http_address(url: Seq<char>) -> bool {
    server_url::canonical(url) matches Ok(text) ==> server_url::is_http(text)
        && server_url::has_readable_host(text)
}

/// Whether a table of mappings holds addresses of HTTP servers, where it does not name the servers
/// that have them.
pub open spec fn is_http_table(table: Option<MappingTable>) -> bool {
    table matches Some(table) ==> (!table.has_server_id ==> forall|i: int|
        0 <= i < table.rows.len() ==> is_http_address((#[trigger] table.rows[i]).server_url@))
}

/// Whether tables hold addresses of HTTP servers.
pub open spec fn hold_http_addresses(tables: LegacyTables) -> bool {
    &&& tables.servers matches Some(rows) ==> forall|i: int|
        0 <= i < rows.len() ==> is_http_address((#[trigger] rows[i]).url@)
    &&& is_http_table(tables.server_mappings)
    &&& is_http_table(tables.media_mappings)
}

proof fn lemma_http_table_becomes_canonical(
    table: Option<MappingTable>,
    ids: Map<i64, i64>,
    urls: Map<i64, String>,
    merges: Option<Vec<MappingMerge>>,
)
    requires
        is_http_table(table),
        legacy::are_table_merges(table, ids, urls, merges),
        legacy::is_stable_table(table, merges),
    ensures
        is_canonical_table(table, merges),
{
    if let (Some(table), Some(merges)) = (table, merges) {
        let on = legacy::resolution(table, ids, urls);
        assert forall|g: int|
            0 <= g < merges.len() && !table.has_server_id implies server_url::is_canonical(
            (#[trigger] merges[g]).canonical_url@,
        ) by {
            let merge = merges@[g];
            let members = legacy::mappings_of(
                on,
                table.rows@,
                merge.owner@,
                merge.canonical_url@,
            );
            assert(legacy::is_merge_of(on, members, merge));
            let i = legacy::lemma_member_place(
                on,
                table.rows@,
                merge.owner@,
                merge.canonical_url@,
                0,
            );
            assert(is_http_address(table.rows[i].server_url@));
            assert(server_url::is_stable(merge.canonical_url@));
        }
    }
}

/// A plan for tables that hold addresses of HTTP servers sets canonical addresses.
pub proof fn law_http_addresses_become_canonical(tables: LegacyTables, plan: LegacyPlan)
    requires
        tables.servers matches Some(stored) && legacy::is_plan(tables, stored@, plan),
        legacy::is_stable_plan(tables, plan),
        hold_http_addresses(tables),
    ensures
        sets_canonical_urls(tables, plan),
{
    let stored = tables.servers->0;
    let servers = plan.servers@;
    let ids = plan.canonical_server_ids@;
    let urls = plan.canonical_server_urls@;
    let keeps = |server: LegacyServer| legacy::remains(servers, server);
    let places = lemma_filter_places(servers, keeps);
    assert forall|i: int| 0 <= i < plan.server_merge.remaining.len() implies server_url::is_canonical(
        (#[trigger] plan.server_merge.remaining[i]).canonical_url@,
    ) by {
        assert(server_url::is_stable(plan.server_merge.remaining@[i].canonical_url@));
        assert(servers[places[i]] == plan.server_merge.remaining@[i]);
        assert(is_http_address(stored[places[i]].url@));
    }
    lemma_http_table_becomes_canonical(tables.server_mappings, ids, urls, plan.mappings);
    lemma_http_table_becomes_canonical(tables.media_mappings, ids, urls, plan.media);
}

/// What is known once a plan was carried out: what it began with, and what is read afterwards.
pub open spec fn was_carried_out(
    store: LegacyStore,
    tables: LegacyTables,
    plan: LegacyPlan,
    again: LegacyTables,
) -> bool {
    &&& holds(store, tables)
    &&& are_valid(tables)
    &&& tables.servers matches Some(stored)
    &&& stored.len() > 0
    &&& legacy::is_plan(tables, stored@, plan)
    &&& holds(after(store, plan), again)
}

/// After a plan no two servers have the same address.
pub proof fn law_servers_differ_after_a_plan(
    store: LegacyStore,
    tables: LegacyTables,
    plan: LegacyPlan,
)
    requires
        are_valid(tables),
        tables.servers matches Some(stored) && legacy::is_plan(tables, stored@, plan),
    ensures
        after(store, plan).servers matches Some(servers) && forall|i: int, j: int|
            0 <= i < j < servers.len() ==> (#[trigger] servers[i]).url != (
            #[trigger] servers[j]).url && servers[i].id != servers[j].id,
{
    let servers = plan.servers@;
    let stored = tables.servers->0;
    lemma_servers_are_distinct(stored@, servers);
    legacy::law_remaining_servers_differ(servers, plan.server_merge);
    let keeps = |server: LegacyServer| legacy::remains(servers, server);
    let places = lemma_filter_places(servers, keeps);
    let records = servers_after(plan.server_merge);
    assert forall|i: int, j: int| 0 <= i < j < records.len() implies (#[trigger] records[i]).url != (
    #[trigger] records[j]).url && records[i].id != records[j].id by {
        assert(plan.server_merge.remaining[i].canonical_url@
            != plan.server_merge.remaining[j].canonical_url@);
        assert(servers[places[i]].id != servers[places[j]].id);
    }
}

proof fn lemma_servers_are_distinct(rows: Seq<StoredServer>, servers: Seq<LegacyServer>)
    requires
        legacy::are_loaded(rows, servers),
        forall|i: int, j: int|
            0 <= i < j < rows.len() ==> (#[trigger] rows[i]).id != (#[trigger] rows[j]).id,
    ensures
        legacy::distinct_servers(servers),
{
    assert forall|i: int, j: int| 0 <= i < j < servers.len() implies (#[trigger] servers[i]).id != (
    #[trigger] servers[j]).id by {
        assert(rows[i].id != rows[j].id);
    }
}

/// The servers that are read after a plan are those that remain.
proof fn lemma_servers_after(
    store: LegacyStore,
    tables: LegacyTables,
    plan: LegacyPlan,
    again: LegacyTables,
    servers: Seq<LegacyServer>,
)
    requires
        was_carried_out(store, tables, plan, again),
        sets_canonical_urls(tables, plan),
        again.servers matches Some(rows) && legacy::are_loaded(rows@, servers),
    ensures
        are_remaining(plan.server_merge.remaining@, servers),
{
    let rows = again.servers->0;
    let remaining = plan.server_merge.remaining@;
    let records = servers_after(plan.server_merge);
    assert(stored_servers(rows@) == records);
    assert(stored_servers(rows@).len() == rows.len());
    assert forall|i: int| 0 <= i < servers.len() implies (#[trigger] servers[i]).id
        == remaining[i].id && servers[i].canonical_url@ == remaining[i].canonical_url@ by {
        assert(stored_servers(rows@)[i] == records[i]);
        assert(rows[i].url@ == remaining[i].canonical_url@);
        assert(server_url::is_canonical(plan.server_merge.remaining[i].canonical_url@));
    }
}

/// Once a plan was carried out that sets canonical addresses, the mappings are in order: each has
/// the address of its server, and no two are of the same owner and server. Each server that is read
/// then becomes itself.
pub proof fn law_mappings_are_in_order_after_a_plan(
    store: LegacyStore,
    tables: LegacyTables,
    plan: LegacyPlan,
    again: LegacyTables,
    servers: Seq<LegacyServer>,
    ids: Map<i64, i64>,
    urls: Map<i64, String>,
)
    requires
        was_carried_out(store, tables, plan, again),
        sets_canonical_urls(tables, plan),
        again.servers matches Some(rows) && legacy::are_loaded(rows@, servers),
        legacy::are_canonical_ids(servers, ids),
        legacy::are_canonical_urls(servers, urls),
    ensures
        again.server_mappings matches Some(table) ==> is_settled(
            legacy::resolution(table, ids, urls),
            table.rows@,
        ),
        again.media_mappings matches Some(table) ==> is_settled(
            legacy::resolution(table, ids, urls),
            table.rows@,
        ),
        forall|id: i64| #[trigger]
            ids.contains_key(id) ==> ids[id] == id && plan.canonical_server_ids@.contains_key(id),
{
    let first_ids = plan.canonical_server_ids@;
    let first_urls = plan.canonical_server_urls@;
    lemma_servers_are_distinct(tables.servers->0@, plan.servers@);
    lemma_servers_after(store, tables, plan, again, servers);
    lemma_servers_settle(
        plan.servers@,
        first_ids,
        first_urls,
        plan.server_merge,
        servers,
        ids,
        urls,
    );
    if let Some(table) = again.server_mappings {
        let first = tables.server_mappings->0;
        lemma_table_settles(
            legacy::resolution(first, first_ids, first_urls),
            first.rows@,
            plan.mappings->0@,
            legacy::resolution(table, ids, urls),
            table.rows@,
        );
    }
    if let Some(table) = again.media_mappings {
        let first = tables.media_mappings->0;
        lemma_table_settles(
            legacy::resolution(first, first_ids, first_urls),
            first.rows@,
            plan.media->0@,
            legacy::resolution(table, ids, urls),
            table.rows@,
        );
    }
}

/// Once a plan was carried out that sets canonical addresses, another plan can be made: no address
/// is unreadable, and no mapping lacks its server.
pub proof fn law_second_plan_can_be_made(
    store: LegacyStore,
    tables: LegacyTables,
    plan: LegacyPlan,
    again: LegacyTables,
    error: LegacyError,
)
    requires
        was_carried_out(store, tables, plan, again),
        sets_canonical_urls(tables, plan),
    ensures
        again.servers matches Some(rows) && !legacy::is_load_error(rows@, error) && forall|
            servers: Seq<LegacyServer>,
            ids: Map<i64, i64>,
            urls: Map<i64, String>,
        |
            legacy::are_loaded(rows@, servers) ==> !#[trigger] legacy::is_plan_error(
                again,
                servers,
                ids,
                urls,
                error,
            ),
{
    let rows = again.servers->0;
    let records = servers_after(plan.server_merge);
    assert(stored_servers(rows@) == records);
    assert(stored_servers(rows@).len() == rows.len());
    assert forall|i: int| 0 <= i < rows.len() implies server_url::canonical(
        (#[trigger] rows@[i]).url@,
    ) is Ok by {
        assert(stored_servers(rows@)[i] == records[i]);
        assert(server_url::is_canonical(plan.server_merge.remaining[i].canonical_url@));
    }
    assert forall|servers: Seq<LegacyServer>, ids: Map<i64, i64>, urls: Map<i64, String>|
        legacy::are_loaded(rows@, servers) implies !#[trigger] legacy::is_plan_error(
        again,
        servers,
        ids,
        urls,
        error,
    ) by {
        if legacy::is_plan_error(again, servers, ids, urls, error) {
            law_mappings_are_in_order_after_a_plan(store, tables, plan, again, servers, ids, urls);
            if let Some(table) = again.server_mappings {
                lemma_settled_table_can_be_merged(
                    legacy::MappingKind::Server,
                    legacy::resolution(table, ids, urls),
                    table.rows@,
                    error,
                );
            }
            if let Some(table) = again.media_mappings {
                lemma_settled_table_can_be_merged(
                    legacy::MappingKind::Media,
                    legacy::resolution(table, ids, urls),
                    table.rows@,
                    error,
                );
            }
        }
    }
}

/// Once a plan was carried out that sets canonical addresses, another plan changes nothing.
pub proof fn law_second_plan_changes_nothing(
    store: LegacyStore,
    tables: LegacyTables,
    plan: LegacyPlan,
    again: LegacyTables,
    second: LegacyPlan,
)
    requires
        was_carried_out(store, tables, plan, again),
        sets_canonical_urls(tables, plan),
        again.servers matches Some(rows) && legacy::is_plan(again, rows@, second),
    ensures
        after(after(store, plan), second) == after(store, plan),
{
    let first = after(store, plan);
    let twice = after(first, second);
    let servers = second.servers@;
    let ids = second.canonical_server_ids@;
    let urls = second.canonical_server_urls@;
    law_mappings_are_in_order_after_a_plan(store, tables, plan, again, servers, ids, urls);
    lemma_servers_stay(store, tables, plan, again, second);
    assert(twice.servers == first.servers);
    if let Some(rows) = tables.server_admins {
        lemma_admins_settle(rows@, plan.canonical_server_ids@, ids);
    }
    assert(twice.admins == first.admins);
    if let Some(table) = again.server_mappings {
        lemma_settled_table_stays(
            legacy::resolution(table, ids, urls),
            table.rows@,
            second.mappings->0@,
        );
    }
    assert(twice.mappings == first.mappings);
    if let Some(table) = again.media_mappings {
        lemma_settled_table_stays(
            legacy::resolution(table, ids, urls),
            table.rows@,
            second.media->0@,
        );
    }
    assert(twice.media == first.media);
    lemma_sessions_stay(store, tables, plan, again, second);
}

/// Once a plan was carried out on tables that hold addresses of HTTP servers, all servers have
/// canonical addresses, no two the same; another plan can be made, and it changes nothing.
pub proof fn law_http_servers_are_in_order_for_good(
    store: LegacyStore,
    tables: LegacyTables,
    plan: LegacyPlan,
    again: LegacyTables,
)
    requires
        was_carried_out(store, tables, plan, again),
        legacy::is_stable_plan(tables, plan),
        hold_http_addresses(tables),
    ensures
        after(store, plan).servers matches Some(servers) && {
            &&& forall|i: int|
                0 <= i < servers.len() ==> server_url::is_canonical((#[trigger] servers[i]).url)
            &&& forall|i: int, j: int|
                0 <= i < j < servers.len() ==> (#[trigger] servers[i]).url != (
                #[trigger] servers[j]).url
        },
        again.servers matches Some(rows) && {
            &&& forall|error: LegacyError| !#[trigger] legacy::is_load_error(rows@, error)
            &&& forall|
                servers: Seq<LegacyServer>,
                ids: Map<i64, i64>,
                urls: Map<i64, String>,
                error: LegacyError,
            |
                legacy::are_loaded(rows@, servers) ==> !#[trigger] legacy::is_plan_error(
                    again,
                    servers,
                    ids,
                    urls,
                    error,
                )
            &&& forall|second: LegacyPlan| #[trigger]
                legacy::is_plan(again, rows@, second) ==> after(after(store, plan), second)
                    == after(store, plan)
        },
{
    law_http_addresses_become_canonical(tables, plan);
    law_servers_differ_after_a_plan(store, tables, plan);
    let records = servers_after(plan.server_merge);
    assert forall|i: int| 0 <= i < records.len() implies server_url::is_canonical(
        (#[trigger] records[i]).url,
    ) by {
        assert(server_url::is_canonical(plan.server_merge.remaining[i].canonical_url@));
    }
    let rows = again.servers->0;
    assert forall|error: LegacyError| !#[trigger] legacy::is_load_error(rows@, error) by {
        law_second_plan_can_be_made(store, tables, plan, again, error);
    }
    assert forall|
        servers: Seq<LegacyServer>,
        ids: Map<i64, i64>,
        urls: Map<i64, String>,
        error: LegacyError,
    |
        legacy::are_loaded(rows@, servers) implies !#[trigger] legacy::is_plan_error(
        again,
        servers,
        ids,
        urls,
        error,
    ) by {
        law_second_plan_can_be_made(store, tables, plan, again, error);
    }
    assert forall|second: LegacyPlan| #[trigger] legacy::is_plan(again, rows@, second) implies after(
        after(store, plan),
        second,
    ) == after(store, plan) by {
        law_second_plan_changes_nothing(store, tables, plan, again, second);
    }
}

proof fn lemma_servers_stay(
    store: LegacyStore,
    tables: LegacyTables,
    plan: LegacyPlan,
    again: LegacyTables,
    second: LegacyPlan,
)
    requires
        was_carried_out(store, tables, plan, again),
        sets_canonical_urls(tables, plan),
        again.servers matches Some(rows) && legacy::is_plan(again, rows@, second),
    ensures
        servers_after(second.server_merge) == servers_after(plan.server_merge),
{
    let servers = second.servers@;
    lemma_servers_are_distinct(tables.servers->0@, plan.servers@);
    lemma_servers_after(store, tables, plan, again, servers);
    lemma_servers_settle(
        plan.servers@,
        plan.canonical_server_ids@,
        plan.canonical_server_urls@,
        plan.server_merge,
        servers,
        second.canonical_server_ids@,
        second.canonical_server_urls@,
    );
    lemma_filter_keeps_all(servers, |server: LegacyServer| legacy::remains(servers, server));
    assert(servers_after(second.server_merge) =~= servers_after(plan.server_merge));
}

proof fn lemma_sessions_stay(
    store: LegacyStore,
    tables: LegacyTables,
    plan: LegacyPlan,
    again: LegacyTables,
    second: LegacyPlan,
)
    requires
        was_carried_out(store, tables, plan, again),
        again.servers matches Some(rows) && legacy::is_plan(again, rows@, second),
        after(after(store, plan), second).mappings == after(store, plan).mappings,
        second.mappings matches Some(merges) ==> {
            &&& forall|g: int|
                0 <= g < merges.len() ==> (#[trigger] merges[g]).duplicate_mapping_ids.len() == 0
            &&& forall|id: i64| !#[trigger] legacy::is_deleted(merges@, id)
        },
    ensures
        after(after(store, plan), second).sessions == after(store, plan).sessions,
{
    let first = after(store, plan);
    if first.sessions is Some && first.mappings is Some {
        let merges = second.mappings->0@;
        let deleted = second.superseded_sessions->0@;
        let mappings = first.mappings->0.rows;
        let records = first.sessions->0;
        assert forall|id: i64| !#[trigger] is_dropped(deleted, id) by {
            if is_dropped(deleted, id) {
                let g = choose|g: int|
                    0 <= g < deleted.len() && (#[trigger] deleted[g])@.contains(id);
                assert(merges[g].duplicate_mapping_ids.len() == 0);
            }
        }
        lemma_filter_keeps_all(
            records,
            |record: SessionRecord| !is_dropped(deleted, record.id),
        );
        let moved = store.sessions->0.filter(
            |record: SessionRecord| !is_dropped(plan.superseded_sessions->0@, record.id),
        );
        assert forall|i: int| 0 <= i < records.len() implies session_after(
            #[trigger] records[i],
            merges,
            mappings,
        ) == records[i] by {
            assert(records[i] == session_after(moved[i], plan.mappings->0@, mappings));
            assert(!legacy::is_deleted(merges, records[i].mapping_id));
        }
        assert(after(first, second).sessions->0 =~= records);
    }
}

} // verus!
