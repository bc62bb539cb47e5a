use jellyswarrm::legacy_server_identity::{
    canonical_server_ids, canonical_server_urls, canonicalize_legacy_server_identity,
    canonicalize_media_mappings, canonicalize_server_mappings, load_servers,
    merge_authorization_sessions, merge_server_admins, merge_servers, placeholders, session_order,
    AdminRow, LegacyError, LegacyPlan, LegacyServer, LegacyTables, MappingMerge, MappingRow,
    MappingTable, SessionRow, StoredServer,
};
use std::collections::HashMap;

fn stored(id: i64, url: &str) -> StoredServer {
    StoredServer { id, url: url.to_string() }
}

fn legacy(id: i64, url: &str) -> LegacyServer {
    LegacyServer { id, canonical_url: url.to_string() }
}

fn mapping(id: i64, owner: &str, server_id: Option<i64>, url: &str) -> MappingRow {
    MappingRow { id, owner: owner.to_string(), server_id, server_url: url.to_string() }
}

fn login(id: i64, user_id: &str, mapping_id: i64, device_id: &str) -> SessionRow {
    SessionRow {
        id,
        user_id: user_id.to_string(),
        mapping_id,
        device_id: device_id.to_string(),
    }
}

fn no_tables() -> LegacyTables {
    LegacyTables {
        servers: None,
        server_admins: None,
        server_mappings: None,
        media_mappings: None,
        authorization_sessions: None,
    }
}

fn apply_to_mappings(rows: &[MappingRow], merges: &[MappingMerge]) -> Vec<(i64, String, String)> {
    let mut left = Vec::new();
    for row in rows {
        if merges.iter().any(|merge| merge.duplicate_mapping_ids.contains(&row.id)) {
            continue;
        }
        let merge = merges.iter().find(|merge| merge.canonical_mapping_id == row.id).unwrap();
        let url = match &merge.update {
            Some(update) => update.server_url.clone(),
            None => row.server_url.clone(),
        };
        left.push((row.id, row.owner.clone(), url));
    }
    left
}

#[test]
fn cleanup_merges_canonical_server_identity_without_orphaning_sessions() {
    let server_mappings = vec![
        mapping(1, "user", None, "https://example.com/jellyfin/?query=1"),
        mapping(2, "user", None, "https://example.com/jellyfin/"),
        mapping(3, "other-user", None, "https://other.example/"),
    ];
    let media_mappings = vec![
        mapping(1, "item", None, "https://example.com/jellyfin/?query=1"),
        mapping(2, "item", None, "https://example.com/jellyfin/"),
    ];
    // The newest session first.
    let sessions = vec![
        (login(6, "user", 2, "other-device"), "token-other"),
        (login(5, "user", 2, "same-device"), "token-new"),
        (login(10, "user", 1, "same-device"), "token-old"),
    ];
    let tables = LegacyTables {
        servers: Some(vec![
            stored(1, "https://Example.com/jellyfin///?x=1#fragment"),
            stored(2, "https://example.com/jellyfin/"),
            stored(3, "https://other.example"),
        ]),
        server_admins: Some(vec![
            AdminRow { id: 1, server_id: 1 },
            AdminRow { id: 2, server_id: 2 },
        ]),
        server_mappings: Some(MappingTable { has_server_id: false, rows: server_mappings }),
        media_mappings: Some(MappingTable { has_server_id: false, rows: media_mappings }),
        authorization_sessions: Some(vec![
            login(6, "user", 2, "other-device"),
            login(5, "user", 2, "same-device"),
            login(10, "user", 1, "same-device"),
        ]),
    };

    let plan: LegacyPlan = match canonicalize_legacy_server_identity(&tables) {
        Ok(Some(plan)) => plan,
        _ => panic!("no plan"),
    };

    assert_eq!(plan.server_merge.remaining.len(), 2);
    assert_eq!(plan.server_merge.remaining[0].id, 1);
    assert_eq!(plan.server_merge.remaining[0].canonical_url, "https://example.com/jellyfin");
    assert_eq!(plan.server_merge.duplicate_server_ids, vec![2]);

    let admins = plan.admins.unwrap();
    assert_eq!(admins.admin_by_server.get(&1), Some(&1));
    assert_eq!(admins.admin_by_server.len(), 1);
    assert_eq!(admins.duplicate_admin_ids, vec![2]);

    let merges = plan.mappings.unwrap();
    let left = apply_to_mappings(&tables.server_mappings.as_ref().unwrap().rows, &merges);
    assert_eq!(left.iter().filter(|(_, owner, _)| owner == "user").count(), 1);
    assert_eq!(left[0], (1, "user".to_string(), "https://example.com/jellyfin".to_string()));
    assert_eq!(left[1], (3, "other-user".to_string(), "https://other.example".to_string()));

    let deleted: Vec<i64> = plan.superseded_sessions.unwrap().into_iter().flatten().collect();
    let mut kept = Vec::new();
    for (session, token) in sessions {
        if deleted.contains(&session.id) {
            continue;
        }
        let mut mapping_id = session.mapping_id;
        for merge in &merges {
            if merge.duplicate_mapping_ids.contains(&mapping_id) {
                mapping_id = merge.canonical_mapping_id;
            }
        }
        kept.push((session.device_id, mapping_id, token));
    }
    let orphaned = kept
        .iter()
        .filter(|(_, mapping_id, _)| !left.iter().any(|(id, _, _)| id == mapping_id))
        .count();
    assert_eq!(orphaned, 0);
    assert_eq!(kept.len(), 2);
    let same_device: Vec<&str> = kept
        .iter()
        .filter(|(device, _, _)| device == "same-device")
        .map(|(_, _, token)| *token)
        .collect();
    assert_eq!(same_device, vec!["token-new"]);
    assert!(plan.copy_urls_to_sessions);

    let media = plan.media.unwrap();
    let left = apply_to_mappings(&tables.media_mappings.as_ref().unwrap().rows, &media);
    assert_eq!(left.len(), 1);
}

#[test]
fn a_second_plan_changes_nothing() {
    let tables = LegacyTables {
        servers: Some(vec![
            stored(1, "https://example.com/jellyfin"),
            stored(3, "https://other.example"),
        ]),
        server_admins: Some(vec![AdminRow { id: 1, server_id: 1 }]),
        server_mappings: Some(MappingTable {
            has_server_id: true,
            rows: vec![
                mapping(1, "user", Some(1), "https://example.com/jellyfin"),
                mapping(3, "other-user", Some(3), "https://other.example"),
            ],
        }),
        media_mappings: Some(MappingTable {
            has_server_id: false,
            rows: vec![mapping(1, "item", None, "https://example.com/jellyfin")],
        }),
        authorization_sessions: Some(vec![
            login(6, "user", 1, "other-device"),
            login(5, "user", 1, "same-device"),
        ]),
    };
    let plan: LegacyPlan = match canonicalize_legacy_server_identity(&tables) {
        Ok(Some(plan)) => plan,
        _ => panic!("no plan"),
    };
    let servers: Vec<(i64, &str)> = plan
        .server_merge
        .remaining
        .iter()
        .map(|server| (server.id, server.canonical_url.as_str()))
        .collect();
    assert_eq!(
        servers,
        [(1, "https://example.com/jellyfin"), (3, "https://other.example")]
    );
    assert!(plan.server_merge.duplicate_server_ids.is_empty());
    let admins = plan.admins.unwrap();
    assert!(admins.duplicate_admin_ids.is_empty());
    assert_eq!(admins.admin_by_server.get(&1), Some(&1));
    for merge in plan.mappings.unwrap() {
        assert!(merge.duplicate_mapping_ids.is_empty());
        let update = merge.update.unwrap();
        assert_eq!(update.server_id, Some(merge.canonical_mapping_id));
        assert_eq!(update.server_url, merge.canonical_url);
    }
    for merge in plan.media.unwrap() {
        assert!(merge.duplicate_mapping_ids.is_empty());
        assert!(merge.update.is_none());
    }
    assert!(plan.superseded_sessions.unwrap().iter().all(|deleted| deleted.is_empty()));
}

#[test]
fn without_servers_there_is_nothing_to_do() {
    assert!(matches!(canonicalize_legacy_server_identity(&no_tables()), Ok(None)));
    let mut tables = no_tables();
    tables.servers = Some(Vec::new());
    assert!(matches!(canonicalize_legacy_server_identity(&tables), Ok(None)));
}

#[test]
fn tables_that_are_missing_are_left_out() {
    let mut tables = no_tables();
    tables.servers = Some(vec![stored(4, "http://a/")]);
    let plan = match canonicalize_legacy_server_identity(&tables) {
        Ok(Some(plan)) => plan,
        _ => panic!("no plan"),
    };
    assert!(plan.admins.is_none());
    assert!(plan.mappings.is_none());
    assert!(plan.superseded_sessions.is_none());
    assert!(plan.media.is_none());
    assert!(!plan.copy_urls_to_sessions);
    assert_eq!(plan.server_merge.remaining[0].canonical_url, "http://a");
    assert_eq!(plan.canonical_server_ids.get(&4), Some(&4));
    assert_eq!(plan.canonical_server_urls.get(&4), Some(&"http://a".to_string()));
}

#[test]
fn servers_with_unreadable_addresses_are_reported() {
    let error = load_servers(&[stored(1, "http://a"), stored(2, "nowhere"), stored(3, "")])
        .err()
        .unwrap();
    assert_eq!(error.message(), "Invalid server URL in database for server id 2: nowhere");
    let mut tables = no_tables();
    tables.servers = Some(vec![stored(9, "x")]);
    assert!(matches!(
        canonicalize_legacy_server_identity(&tables),
        Err(LegacyError::InvalidServerUrl { server_id: 9, .. })
    ));
}

#[test]
fn each_server_becomes_the_one_with_the_smallest_identifier() {
    let servers = [legacy(7, "a"), legacy(3, "b"), legacy(5, "a"), legacy(9, "b")];
    let ids = canonical_server_ids(&servers);
    assert_eq!(ids, HashMap::from([(7, 5), (5, 5), (3, 3), (9, 3)]));
    let urls = canonical_server_urls(&servers);
    assert_eq!(urls.get(&9), Some(&"b".to_string()));
    let merge = merge_servers(&servers);
    assert_eq!(merge.duplicate_server_ids, vec![7, 9]);
    let left: Vec<i64> = merge.remaining.iter().map(|server| server.id).collect();
    assert_eq!(left, vec![3, 5]);
}

#[test]
fn the_first_administrator_is_kept() {
    let ids = HashMap::from([(1, 1), (2, 1), (3, 3)]);
    let rows = [
        AdminRow { id: 10, server_id: 2 },
        AdminRow { id: 11, server_id: 1 },
        AdminRow { id: 12, server_id: 3 },
        AdminRow { id: 13, server_id: 99 },
    ];
    let merge = merge_server_admins(&rows, &ids);
    assert_eq!(merge.admin_by_server, HashMap::from([(1, 10), (3, 12)]));
    assert_eq!(merge.duplicate_admin_ids, vec![11]);
}

fn maps() -> (HashMap<i64, i64>, HashMap<i64, String>) {
    let ids = HashMap::from([(1, 1), (2, 1)]);
    let urls = HashMap::from([(1, "http://a".to_string()), (2, "http://a".to_string())]);
    (ids, urls)
}

#[test]
fn mappings_follow_the_server_that_they_name() {
    let (ids, urls) = maps();
    let rows = [mapping(8, "u", Some(2), "whatever"), mapping(4, "u", Some(1), "http://a/")];
    let merges = canonicalize_server_mappings(true, &rows, &ids, &urls).ok().unwrap();
    assert_eq!(merges.len(), 1);
    assert_eq!(merges[0].canonical_mapping_id, 4);
    assert_eq!(merges[0].duplicate_mapping_ids, vec![8]);
    let update = merges[0].update.as_ref().unwrap();
    assert_eq!(update.server_id, Some(1));
    assert_eq!(update.server_url, "http://a");
}

#[test]
fn mappings_that_are_in_order_stay() {
    let (ids, urls) = maps();
    let rows = [mapping(1, "u", None, "http://a"), mapping(2, "v", None, "http://a/")];
    let merges = canonicalize_media_mappings(false, &rows, &ids, &urls).ok().unwrap();
    assert_eq!(merges.len(), 2);
    for merge in merges {
        match merge.owner.as_str() {
            "u" => assert!(merge.update.is_none()),
            _ => {
                let update = merge.update.unwrap();
                assert_eq!(update.server_id, None);
                assert_eq!(update.server_url, "http://a");
            }
        }
    }
}

#[test]
fn mappings_that_cannot_be_merged_are_reported() {
    let (ids, urls) = maps();
    let message = |error: Option<LegacyError>| error.unwrap().message();
    let unknown = [mapping(1, "u", Some(7), "http://a")];
    let error = canonicalize_server_mappings(true, &unknown, &ids, &urls).err();
    assert_eq!(message(error), "Missing canonical URL for server id 7");
    let unreadable = [mapping(1, "u", None, "http://a"), mapping(2, "u", None, "nowhere")];
    let error = canonicalize_server_mappings(false, &unreadable, &ids, &urls).err();
    assert_eq!(
        message(error),
        "Invalid server mapping URL in database for mapping 2: nowhere"
    );
    let error = canonicalize_media_mappings(false, &unreadable, &ids, &urls).err();
    assert_eq!(
        message(error),
        "Invalid media mapping URL in database for mapping 2: nowhere"
    );
    let nameless = [mapping(-3, "u", None, "http://a")];
    let error = canonicalize_server_mappings(true, &nameless, &ids, &urls).err();
    assert_eq!(message(error), "Missing server id for mapping -3");
    let error = canonicalize_media_mappings(true, &nameless, &ids, &urls).err();
    assert_eq!(message(error), "Missing server id for media mapping -3");
}

#[test]
fn a_table_without_the_column_names_no_server() {
    let (ids, urls) = maps();
    let rows = [mapping(1, "u", Some(7), "http://b")];
    let merges = canonicalize_server_mappings(false, &rows, &ids, &urls).ok().unwrap();
    assert_eq!(merges[0].canonical_url, "http://b");
    assert!(merges[0].update.is_none());
}

#[test]
fn errors_of_mappings_end_the_whole_plan() {
    let mut tables = no_tables();
    tables.servers = Some(vec![stored(1, "http://a")]);
    tables.media_mappings = Some(MappingTable {
        has_server_id: false,
        rows: vec![mapping(5, "item", None, "?")],
    });
    assert!(matches!(
        canonicalize_legacy_server_identity(&tables),
        Err(LegacyError::InvalidMappingUrl { mapping_id: 5, .. })
    ));
    tables.server_mappings = Some(MappingTable {
        has_server_id: true,
        rows: vec![mapping(6, "user", Some(2), "http://a")],
    });
    assert!(matches!(
        canonicalize_legacy_server_identity(&tables),
        Err(LegacyError::MissingCanonicalUrl { server_id: 2 })
    ));
}

#[test]
fn only_the_newest_session_of_a_device_is_kept() {
    let sessions = [
        login(4, "u", 2, "tv"),
        login(3, "u", 1, "tv"),
        login(2, "u", 9, "tv"),
        login(1, "v", 1, "tv"),
        login(0, "u", 1, "phone"),
    ];
    assert_eq!(merge_authorization_sessions(&sessions, 1, &[2]), vec![3]);
    assert!(merge_authorization_sessions(&sessions, 1, &[]).is_empty());
}

#[test]
fn placeholders_stand_between_commas() {
    assert_eq!(placeholders(0), "");
    assert_eq!(placeholders(1), "?");
    assert_eq!(placeholders(3), "?,?,?");
}

#[test]
fn sessions_are_ordered_by_the_columns_that_there_are() {
    assert_eq!(session_order(true, true), "updated_at DESC, created_at DESC, id DESC");
    assert_eq!(session_order(true, false), "updated_at DESC, id DESC");
    assert_eq!(session_order(false, true), "created_at DESC, id DESC");
    assert_eq!(session_order(false, false), "id DESC");
}
