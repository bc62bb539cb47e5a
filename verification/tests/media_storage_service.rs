use jellyswarrm::media_storage_service::{
    MappedItem, MappingEvent, MappingFailure, MappingStep, MappingWithServerEvent,
    MappingWithServerRow, MappingWithServerStep, MediaMapping, MediaStorageService,
};
use jellyswarrm::server_id::ServerId;
use jellyswarrm::server_storage::{MediaStreamingMode, Server, ServerRow};
use jellyswarrm::server_url::ServerUrl;
use jellyswarrm::time::Timestamp;

fn test_server() -> Server {
    Server {
        id: ServerId::new(1),
        name: "Test Server".to_string(),
        url: ServerUrl::parse("http://localhost:8096").unwrap(),
        priority: 100,
        media_streaming_mode: MediaStreamingMode::Redirect,
        created_at: Timestamp::from_parts(0, 0),
        updated_at: Timestamp::from_parts(0, 0),
    }
}

/// A store of mappings in memory, with a cache in front of it.
struct Store {
    rows: Vec<MediaMapping>,
    cache: Vec<(String, MediaMapping)>,
}

impl Store {
    fn by_original(&self, id: &str, server_id: ServerId) -> Option<MediaMapping> {
        let id = MediaStorageService::normalize_uuid(id);
        self.rows
            .iter()
            .find(|row| row.original_media_id == id && row.server_id == server_id)
            .cloned()
    }

    fn by_virtual(&self, id: &str) -> Option<MediaMapping> {
        let id = MediaStorageService::normalize_uuid(id);
        self.rows.iter().find(|row| row.virtual_media_id == id).cloned()
    }

    fn get_or_create(&mut self, original: &str, server: &Server) -> MediaMapping {
        let mut step: MappingStep<()> = MediaStorageService::find_mapping(original, server);
        loop {
            let event = match &step {
                MappingStep::ReadCache { key, .. } => MappingEvent::Cached(
                    self.cache.iter().find(|entry| entry.0 == *key).map(|entry| entry.1.clone()),
                ),
                MappingStep::FindExisting { item, .. } | MappingStep::FindAgain { item, .. } => {
                    let found = self.by_original(&item.original_media_id, item.server_id);
                    MappingEvent::Found(Ok(found))
                }
                MappingStep::Insert { item, .. } => {
                    let row = MediaMapping {
                        id: self.rows.len() as i64 + 1,
                        virtual_media_id: format!("{:032x}", self.rows.len() + 1),
                        original_media_id: item.original_media_id.clone(),
                        server_id: item.server_id,
                        server_url: item.server_url.clone(),
                        created_at: Timestamp::from_parts(0, 0),
                    };
                    self.rows.push(row.clone());
                    MappingEvent::Inserted(Ok(Some(row)))
                }
                MappingStep::Store { key, mapping } => {
                    self.cache.push((key.clone(), mapping.clone()));
                    MappingEvent::Stored
                }
                MappingStep::Return(mapping) => return mapping.clone(),
                MappingStep::Fail(_) => panic!("the store failed"),
            };
            step = MediaStorageService::get_or_create_media_mapping(step, event);
        }
    }
}

fn mapping(virtual_id: &str) -> MediaMapping {
    MediaMapping {
        id: 1,
        virtual_media_id: virtual_id.to_string(),
        original_media_id: "o".to_string(),
        server_id: ServerId::new(1),
        server_url: "http://a".to_string(),
        created_at: Timestamp::from_parts(0, 0),
    }
}

fn joined(url: &str) -> MappingWithServerRow {
    MappingWithServerRow {
        mapping: mapping("v"),
        server: ServerRow {
            id: 1,
            name: "Test Server".to_string(),
            url: url.to_string(),
            priority: 100,
            media_streaming_mode: None,
            created_at: Timestamp::from_parts(0, 0),
            updated_at: Timestamp::from_parts(0, 0),
        },
    }
}

#[test]
fn test_media_storage_service() {
    let mut store = Store { rows: Vec::new(), cache: Vec::new() };
    let server = test_server();

    let mapping = store.get_or_create("original-movie-123", &server);
    assert_eq!(mapping.original_media_id, "original-movie-123");
    assert_eq!(mapping.server_url, "http://localhost:8096");

    let retrieved = store.by_virtual(&mapping.virtual_media_id).unwrap();
    assert_eq!(retrieved.virtual_media_id, mapping.virtual_media_id);
    assert_eq!(retrieved.original_media_id, "original-movie-123");

    let again = store.get_or_create("original-movie-123", &server);
    assert_eq!(again.virtual_media_id, mapping.virtual_media_id);
    store.cache.clear();
    let found = store.get_or_create("original-movie-123", &server);
    assert_eq!(found.virtual_media_id, mapping.virtual_media_id);
    assert_eq!(store.rows.len(), 1);
}

#[test]
fn test_get_media_mapping_with_server() {
    let mut store = Store { rows: Vec::new(), cache: Vec::new() };
    let mapping = store.get_or_create("original-movie-123", &test_server());

    let mut row = joined("http://localhost:8096");
    row.mapping = store.by_virtual(&mapping.virtual_media_id).unwrap();
    let mut step: MappingWithServerStep<()> =
        MediaStorageService::find_mapping_with_server(&mapping.virtual_media_id);
    for event in [
        MappingWithServerEvent::Cached(None),
        MappingWithServerEvent::Row(Ok(Some(row))),
        MappingWithServerEvent::Stored,
    ] {
        step = MediaStorageService::get_media_mapping_with_server(step, event);
    }
    let (retrieved, server) = match step {
        MappingWithServerStep::Return(Some(pair)) => pair,
        _ => panic!("nothing found"),
    };
    assert_eq!(retrieved.virtual_media_id, mapping.virtual_media_id);
    assert_eq!(retrieved.original_media_id, "original-movie-123");
    assert_eq!(server.name, "Test Server");
    assert_eq!(server.url.as_str(), "http://localhost:8096");
}

#[test]
fn test_delete_operations() {
    let mut store = Store { rows: Vec::new(), cache: Vec::new() };
    let mapping = store.get_or_create("movie-123", &test_server());
    assert!(store.by_virtual(&mapping.virtual_media_id).is_some());

    let before = store.rows.len();
    store.rows.retain(|row| row.virtual_media_id != mapping.virtual_media_id);
    let affected = (before - store.rows.len()) as u64;
    let deletion =
        MediaStorageService::delete_media_mapping(&mapping.virtual_media_id, affected);
    assert!(deletion.deleted);
    assert_eq!(deletion.invalidate, Some(mapping.virtual_media_id.clone()));
    assert!(store.by_virtual(&mapping.virtual_media_id).is_none());

    let deletion = MediaStorageService::delete_media_mapping("missing", 0);
    assert!(!deletion.deleted);
    assert_eq!(deletion.invalidate, None);
    assert!(MediaStorageService::is_mapping_of(&mapping, &mapping.virtual_media_id));
    assert!(!MediaStorageService::is_mapping_of(&mapping, "missing"));
}

#[test]
fn uuids_are_brought_into_their_simple_form() {
    let simple = "82fe5aab29ff963005c2da1a5a640428";
    for text in [
        "82fe5aab-29ff-9630-05c2-da1a5a640428",
        "82FE5AAB-29FF-9630-05C2-DA1A5A640428",
        "{82fe5aab-29ff-9630-05c2-da1a5a640428}",
        "urn:uuid:82fe5aab-29ff-9630-05c2-da1a5a640428",
        simple,
    ] {
        assert_eq!(MediaStorageService::normalize_uuid(text), simple);
    }
    assert_eq!(MediaStorageService::normalize_uuid("Movie-123"), "Movie-123");
    assert_eq!(MediaStorageService::normalize_uuid(""), "");
    assert_eq!(
        MediaStorageService::normalized_from("x", Some(0xab)),
        "000000000000000000000000000000ab"
    );
    assert_eq!(MediaStorageService::normalized_from("x", None), "x");
}

#[test]
fn cache_keys_name_item_and_server() {
    assert_eq!(MediaStorageService::mapping_cache_key("item", ServerId::new(12)), "item|12");
    assert_ne!(
        MediaStorageService::mapping_cache_key("a|1", ServerId::new(2)),
        MediaStorageService::mapping_cache_key("a", ServerId::new(12))
    );
}

fn key() -> String {
    "o|1".to_string()
}

fn item() -> MappedItem {
    MappedItem {
        original_media_id: "o".to_string(),
        server_id: ServerId::new(1),
        server_url: "http://a".to_string(),
    }
}

#[test]
fn a_search_begins_with_the_simple_form_of_the_identifier() {
    let wanted = "82FE5AAB-29FF-9630-05C2-DA1A5A640428";
    let simple = "82fe5aab29ff963005c2da1a5a640428";
    match MediaStorageService::find_mapping::<()>(wanted, &test_server()) {
        MappingStep::ReadCache { key, item } => {
            assert_eq!(key, format!("{simple}|1"));
            assert_eq!(item.original_media_id, simple);
            assert_eq!(item.server_id, ServerId::new(1));
            assert_eq!(item.server_url, "http://localhost:8096");
        }
        _ => panic!("the cache is not read first"),
    }
    match MediaStorageService::find_mapping_with_server::<()>(wanted) {
        MappingWithServerStep::ReadCache { virtual_media_id } => {
            assert_eq!(virtual_media_id, simple);
        }
        _ => panic!("the cache is not read first"),
    }
}

#[test]
fn spellings_of_one_uuid_share_a_mapping() {
    let mut store = Store { rows: Vec::new(), cache: Vec::new() };
    let server = test_server();
    let first = store.get_or_create("82FE5AAB-29FF-9630-05C2-DA1A5A640428", &server);
    let second = store.get_or_create("82fe5aab29ff963005c2da1a5a640428", &server);
    assert_eq!(second.virtual_media_id, first.virtual_media_id);
    assert_eq!(second.original_media_id, "82fe5aab29ff963005c2da1a5a640428");
    store.get_or_create("82fe5aab29ff963005c2da1a5a640429", &server);
    assert_eq!(store.rows.len(), 2);
}

#[test]
fn a_mapping_that_appears_meanwhile_is_found_again() {
    let next = MediaStorageService::get_or_create_media_mapping::<&str>;
    let insert = || MappingStep::Insert { key: key(), item: item() };
    let find_again = || MappingStep::FindAgain { key: key(), item: item() };
    let step = next(insert(), MappingEvent::Inserted(Ok(None)));
    match step {
        MappingStep::FindAgain { key, item } => {
            assert_eq!(key, "o|1");
            assert_eq!(item.original_media_id, "o");
        }
        _ => panic!("nothing is looked for"),
    }
    let found = next(find_again(), MappingEvent::Found(Ok(Some(mapping("v")))));
    assert!(matches!(found, MappingStep::Store { .. }));
    let lost = next(find_again(), MappingEvent::Found(Ok(None)));
    assert!(matches!(lost, MappingStep::Fail(MappingFailure::RowNotFound)));
    for step in [MappingStep::FindExisting { key: key(), item: item() }, find_again()] {
        let failed = next(step, MappingEvent::Found(Err("down")));
        assert!(matches!(failed, MappingStep::Fail(MappingFailure::Database("down"))));
    }
    let failed = next(insert(), MappingEvent::Inserted(Err("down")));
    assert!(matches!(failed, MappingStep::Fail(MappingFailure::Database("down"))));
    let read = MappingStep::ReadCache { key: key(), item: item() };
    let cached = next(read, MappingEvent::Cached(Some(mapping("v"))));
    assert!(matches!(cached, MappingStep::Return(_)));
}

#[test]
fn mappings_with_unreadable_servers_are_reported() {
    let next = MediaStorageService::get_media_mapping_with_server::<&str>;
    let query = || MappingWithServerStep::Query { virtual_media_id: "v".to_string() };
    let bad = MappingWithServerEvent::Row(Ok(Some(joined("nowhere"))));
    match next(query(), bad) {
        MappingWithServerStep::FailColumn(error) => assert_eq!(error.column, "server_url_full"),
        _ => panic!("the address was read"),
    }
    let none = next(query(), MappingWithServerEvent::Row(Ok(None)));
    assert!(matches!(none, MappingWithServerStep::Return(None)));
    let failed = next(query(), MappingWithServerEvent::Row(Err("down")));
    assert!(matches!(failed, MappingWithServerStep::FailDatabase("down")));
    assert!(MediaStorageService::read_mapping_with_server(joined("http://a")).is_ok());
}
