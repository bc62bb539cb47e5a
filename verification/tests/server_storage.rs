use jellyswarrm::server_id::ServerId;
use jellyswarrm::server_storage::{
    parse_server_url_column, MediaStreamingMode, PublicSystemInfo, Server, ServerHealthStatus,
    ServerRow, ServerStorageService,
};
use jellyswarrm::time::Timestamp;

fn row(id: i64, name: &str, url: &str, priority: i32, mode: Option<MediaStreamingMode>) -> ServerRow {
    ServerRow {
        id,
        name: name.to_string(),
        url: url.to_string(),
        priority,
        media_streaming_mode: mode,
        created_at: Timestamp::from_parts(1, 0),
        updated_at: Timestamp::from_parts(2, 0),
    }
}

fn healthy() -> ServerHealthStatus {
    ServerHealthStatus::Healthy(PublicSystemInfo { version: Some("10.10".to_string()) })
}

fn unhealthy(reason: &str) -> ServerHealthStatus {
    ServerHealthStatus::Unhealthy(reason.to_string())
}

#[test]
fn test_server_storage_service() {
    // The rows of the store, in which addresses are unique.
    let mut rows: Vec<ServerRow> = Vec::new();

    let added = ServerStorageService::add_server(
        "test-server",
        "http://localhost:8096",
        100,
        MediaStreamingMode::Redirect,
    )
    .ok()
    .unwrap();
    let mode = Some(added.media_streaming_mode);
    rows.push(row(1, &added.name, added.url.as_str(), added.priority, mode));

    let mode = rows[0].media_streaming_mode;
    let server = Server::from_row(row(1, &rows[0].name, &rows[0].url, 100, mode), "url").unwrap();
    assert_eq!(server.name, "test-server");
    assert_eq!(server.url.as_str(), "http://localhost:8096");
    assert_eq!(server.priority, 100);
    assert_eq!(server.media_streaming_mode, MediaStreamingMode::Redirect);

    let duplicate = ServerStorageService::add_server(
        "duplicate-url-server",
        "http://localhost:8096/",
        100,
        MediaStreamingMode::Redirect,
    )
    .ok()
    .unwrap();
    assert!(rows.iter().any(|row| row.url == duplicate.url.as_str()));

    rows[0].priority = 200;
    rows[0].media_streaming_mode = Some(MediaStreamingMode::Proxy);
    let servers = ServerStorageService::list_servers(rows).unwrap();
    assert_eq!(servers.len(), 1);
    let server = &servers[0];
    assert_eq!(server.priority, 200);
    assert_eq!(server.media_streaming_mode, MediaStreamingMode::Proxy);
}

#[test]
fn addresses_that_cannot_be_read_are_refused() {
    assert!(ServerStorageService::add_server("a", "nowhere", 1, MediaStreamingMode::Proxy).is_err());
    let error = Server::from_row(row(1, "a", "nowhere", 1, None), "url").err().unwrap();
    assert_eq!(error.column, "url");
    let error = parse_server_url_column("server_url_full", "").err().unwrap();
    assert_eq!(error.column, "server_url_full");
    assert_eq!(error.source.0, url::ParseError::RelativeUrlWithoutBase);
}

#[test]
fn servers_are_listed_in_the_order_of_their_rows() {
    let servers = ServerStorageService::list_servers(vec![
        row(2, "b", "http://b/", 9, None),
        row(1, "a", "http://a?x", 5, None),
    ])
    .unwrap();
    let found: Vec<(i64, &str)> = servers.iter().map(|s| (s.id.as_i64(), s.url.as_str())).collect();
    assert_eq!(found, [(2, "http://b"), (1, "http://a")]);
    let error = ServerStorageService::list_servers(vec![
        row(1, "a", "http://a", 1, None),
        row(2, "b", "nowhere", 1, None),
        row(3, "c", "http://[", 1, None),
    ])
    .err()
    .unwrap();
    assert_eq!(error.column, "url");
    assert_eq!(error.source.0, url::ParseError::RelativeUrlWithoutBase);
    assert!(ServerStorageService::list_servers(Vec::new()).unwrap().is_empty());
}

#[test]
fn a_mode_that_cannot_be_read_is_a_redirect() {
    let server = Server::from_row(row(5, "a", "http://a//", 1, None), "url").unwrap();
    assert_eq!(server.media_streaming_mode, MediaStreamingMode::Redirect);
    assert_eq!(server.id.as_i64(), 5);
    assert_eq!(server.id.text(), "5");
    assert_eq!(server.url.as_str(), "http://a");
    assert!(server.same(&server.clone()));
    let other = Server::from_row(row(5, "a", "http://a//", 2, None), "url").unwrap();
    assert!(!server.same(&other));
}

#[test]
fn the_last_report_of_a_server_counts() {
    let mut servers = ServerStorageService::new();
    let status = servers.server_status(ServerId::new(1));
    assert!(!status.is_healthy());
    assert!(matches!(status, ServerHealthStatus::Unhealthy(reason) if reason == "Unknown Server Status"));
    servers.check_servers_health(vec![
        (ServerId::new(1), unhealthy("down")),
        (ServerId::new(2), healthy()),
        (ServerId::new(1), healthy()),
    ]);
    assert!(servers.server_status(ServerId::new(1)).is_healthy());
    servers.check_servers_health(vec![(ServerId::new(2), unhealthy("down"))]);
    assert!(servers.server_status(ServerId::new(1)).is_healthy());
    assert!(!servers.server_status(ServerId::new(2)).is_healthy());
    servers.delete_server(ServerId::new(1));
    assert!(!servers.server_status(ServerId::new(1)).is_healthy());
}

#[test]
fn the_best_server_is_the_first_healthy_one() {
    let list: Vec<Server> = [(1, 300), (2, 200), (3, 100)]
        .into_iter()
        .map(|(id, priority)| Server::from_row(row(id, "s", "http://s", priority, None), "url").unwrap())
        .collect();
    let mut servers = ServerStorageService::new();
    let best = |servers: &ServerStorageService| servers.get_best_server(&list).unwrap().id;
    assert_eq!(best(&servers), ServerId::new(1));
    servers.check_servers_health(vec![
        (ServerId::new(1), unhealthy("down")),
        (ServerId::new(2), healthy()),
        (ServerId::new(3), healthy()),
    ]);
    assert_eq!(best(&servers), ServerId::new(2));
    assert!(servers.get_best_server(&Vec::new()).is_none());
}
