use hyper::header::{HeaderMap, HeaderValue};
use jellyswarrm::handlers::videos::{
    delivery, extract_play_session_id, extract_video_id, get_stream, get_video_resource,
    play_session_id_among, session_for_server, single_matching_play_session,
    strip_hop_by_hop_headers, Delivery, PreparedRequest, VideoEvent, VideoStep,
};
use jellyswarrm::server_id::ServerId;
use jellyswarrm::server_storage::{
    MediaStreamingMode, PublicSystemInfo, Server, ServerHealthStatus, ServerStorageService,
};
use jellyswarrm::server_url::ServerUrl;
use jellyswarrm::session_storage::{PlaybackSession, SessionStorage};
use jellyswarrm::time::Timestamp;

fn playback_session(session_id: &str, user_id: &str, server_id: i64) -> PlaybackSession {
    PlaybackSession {
        session_id: session_id.to_string(),
        item_id: "item-1".to_string(),
        user_id: user_id.to_string(),
        server_id: ServerId::new(server_id),
    }
}

fn server(id: i64, mode: MediaStreamingMode) -> Server {
    Server {
        id: ServerId::new(id),
        name: "server".to_string(),
        url: ServerUrl::parse("http://localhost:8096").unwrap(),
        priority: 100,
        media_streaming_mode: mode,
        created_at: Timestamp::from_parts(0, 0),
        updated_at: Timestamp::from_parts(0, 0),
    }
}

#[test]
fn single_matching_play_session_accepts_one_candidate() {
    let session = single_matching_play_session(
        vec![playback_session("session-1", "user-1", 1)],
        Some("user-1"),
    )
    .unwrap();

    assert_eq!(session.session_id, "session-1");
    assert_eq!(session.server_id, ServerId::new(1));
}

#[test]
fn single_matching_play_session_filters_by_user() {
    let session = single_matching_play_session(
        vec![
            playback_session("session-1", "user-1", 1),
            playback_session("session-2", "user-2", 2),
        ],
        Some("user-2"),
    )
    .unwrap();

    assert_eq!(session.session_id, "session-2");
    assert_eq!(session.server_id, ServerId::new(2));
}

#[test]
fn single_matching_play_session_rejects_ambiguous_matches() {
    let result = single_matching_play_session(
        vec![
            playback_session("session-1", "user-1", 1),
            playback_session("session-2", "user-1", 2),
        ],
        Some("user-1"),
    );

    assert!(matches!(result, Err(2)));
}

#[test]
fn single_matching_play_session_rejects_missing_user_match() {
    let result = single_matching_play_session(
        vec![playback_session("session-1", "user-1", 1)],
        Some("user-2"),
    );

    assert!(matches!(result, Err(0)));
}

#[test]
fn without_a_user_every_session_counts() {
    assert!(single_matching_play_session(vec![playback_session("s", "u", 1)], None).is_ok());
    let two = vec![playback_session("s", "u", 1), playback_session("t", "v", 1)];
    assert!(matches!(single_matching_play_session(two, None), Err(2)));
}

#[test]
fn the_video_stands_behind_the_segment_videos() {
    assert_eq!(extract_video_id("/Videos/82fe5aab/stream.mkv"), Some("82fe5aab"));
    assert_eq!(extract_video_id("/base/videos/abc"), Some("abc"));
    assert_eq!(extract_video_id("VIDEOS/abc///"), Some("abc"));
    assert_eq!(extract_video_id("/Videos/"), None);
    assert_eq!(extract_video_id("/Videos//abc"), None);
    assert_eq!(extract_video_id("/Audio/abc"), None);
    assert_eq!(extract_video_id(""), None);
    assert_eq!(extract_video_id("/Videos/Videos/abc"), Some("Videos"));
}

#[test]
fn the_session_is_read_out_of_the_query() {
    let url = |text: &str| url::Url::parse(text).unwrap();
    let id = |text: &str| extract_play_session_id(&url(text));
    assert_eq!(id("http://a/b?playsessionid=x%20y"), Some("x y".to_string()));
    assert_eq!(id("http://a/b?q=1&SESSIONID=s"), Some("s".to_string()));
    assert_eq!(id("http://a/b?SessionId=&PlaySessionId=p"), Some("p".to_string()));
    assert_eq!(id("http://a/b?SessionId="), None);
    assert_eq!(id("http://a/b"), None);
    let pairs = vec![
        ("other".to_string(), "1".to_string()),
        ("SessionId".to_string(), "a".to_string()),
        ("PlaySessionId".to_string(), "b".to_string()),
    ];
    assert_eq!(play_session_id_among(&pairs), Some("a".to_string()));
}

#[test]
fn headers_of_one_connection_are_stripped() {
    let mut headers = HeaderMap::new();
    for name in [
        "connection",
        "keep-alive",
        "proxy-authenticate",
        "proxy-authorization",
        "te",
        "trailer",
        "transfer-encoding",
        "upgrade",
        "content-type",
        "x-other",
    ] {
        headers.append(name, HeaderValue::from_static("1"));
        headers.append(name, HeaderValue::from_static("2"));
    }
    strip_hop_by_hop_headers(&mut headers);
    assert_eq!(headers.len(), 4);
    let left: Vec<&HeaderValue> = headers.get_all("content-type").iter().collect();
    assert_eq!(left, vec!["1", "2"]);
    assert!(headers.contains_key("x-other"));
    strip_hop_by_hop_headers(&mut headers);
    assert_eq!(headers.len(), 4);
}

#[test]
fn the_session_on_a_server_is_the_first_one() {
    let proxy = MediaStreamingMode::Proxy;
    let sessions = vec![(1, server(1, proxy)), (2, server(2, proxy)), (3, server(2, proxy))];
    assert_eq!(session_for_server(Some(sessions), &server(2, proxy)), Some(2));
    let none: Option<Vec<(i32, Server)>> = None;
    assert_eq!(session_for_server(none, &server(2, proxy)), None);
}

#[test]
fn servers_say_how_media_are_delivered() {
    assert_eq!(delivery(MediaStreamingMode::Redirect), Delivery::Redirect);
    assert_eq!(get_stream(Some(MediaStreamingMode::Proxy)), Ok(Delivery::Proxy));
    assert_eq!(get_stream(None), Err(400));
}

fn prepared(url: &str, user_id: Option<&str>) -> PreparedRequest<&'static str> {
    PreparedRequest {
        original_url: Some(url::Url::parse(url).unwrap()),
        user_id: user_id.map(|id| id.to_string()),
        session: Some("own"),
        session_user_id: Some("user-1".to_string()),
        server_id: ServerId::new(1),
        sessions: None,
    }
}

fn health(id: i64) -> ServerStorageService {
    let mut servers = ServerStorageService::new();
    servers.check_servers_health(vec![(
        ServerId::new(id),
        ServerHealthStatus::Healthy(PublicSystemInfo { version: None }),
    )]);
    servers
}

#[test]
fn a_video_is_delivered_from_the_server_of_its_session() {
    let mut sessions = SessionStorage::new();
    sessions.add_session(playback_session("s", "user-1", 1), 0);
    let servers = health(1);
    let request = prepared("http://proxy/Videos/item-1/stream?PlaySessionId=s", None);
    let step = get_video_resource(
        VideoStep::Preprocess,
        VideoEvent::Preprocessed(Some(request)),
        &mut sessions,
        &servers,
        1,
    );
    let found = match &step {
        VideoStep::GetServer { play_session, .. } => play_session.server_id,
        _ => panic!("no session found"),
    };
    assert_eq!(found, ServerId::new(1));
    let event = VideoEvent::Server(Some(Some(server(1, MediaStreamingMode::Proxy))));
    let step = get_video_resource(step, event, &mut sessions, &servers, 1);
    match &step {
        VideoStep::RemapAuthorization { session, .. } => assert_eq!(*session, Some("own")),
        _ => panic!("no server found"),
    }
    let step = get_video_resource(step, VideoEvent::Remapped(true), &mut sessions, &servers, 1);
    match step {
        VideoStep::Deliver { delivery, .. } => assert_eq!(delivery, Delivery::Proxy),
        _ => panic!("not delivered"),
    }
}

fn fails(step: VideoStep<&'static str>) -> u16 {
    match step {
        VideoStep::Fail(code) => code,
        _ => 0,
    }
}

#[test]
fn requests_for_videos_fail_with_a_status() {
    let mut sessions = SessionStorage::new();
    let servers = ServerStorageService::new();
    let begin = |request, sessions: &mut SessionStorage| {
        let event = VideoEvent::Preprocessed(request);
        get_video_resource(VideoStep::Preprocess, event, sessions, &servers, 0)
    };
    assert_eq!(fails(begin(None, &mut sessions)), 400);
    let mut request = prepared("http://proxy/Videos/item-1/stream", None);
    request.original_url = None;
    assert_eq!(fails(begin(Some(request), &mut sessions)), 400);
    assert_eq!(fails(begin(Some(prepared("http://proxy/x", None)), &mut sessions)), 404);
    let unnamed = prepared("http://proxy/Videos/item-1/stream", None);
    assert_eq!(fails(begin(Some(unnamed), &mut sessions)), 404);

    sessions.add_session(playback_session("s", "user-1", 7), 0);
    sessions.add_session(playback_session("t", "user-2", 7), 0);
    let of_session_user = prepared("http://proxy/Videos/item-1/stream", None);
    let step = begin(Some(of_session_user), &mut sessions);
    assert!(matches!(step, VideoStep::GetServer { .. }));
    let failed = get_video_resource(step, VideoEvent::Server(None), &mut sessions, &servers, 0);
    assert_eq!(fails(failed), 500);

    let of_user = prepared("http://proxy/Videos/item-1/stream", Some("user-2"));
    let step = begin(Some(of_user), &mut sessions);
    let sick = VideoEvent::Server(Some(Some(server(7, MediaStreamingMode::Redirect))));
    assert_eq!(fails(get_video_resource(step, sick, &mut sessions, &servers, 0)), 404);

    let of_user = prepared("http://proxy/Videos/item-1/stream", Some("user-2"));
    let step = begin(Some(of_user), &mut sessions);
    let gone = get_video_resource(step, VideoEvent::Server(Some(None)), &mut sessions, &servers, 0);
    assert_eq!(fails(gone), 404);
    assert!(sessions.get_session("s", 0).is_none());

    let step = VideoStep::RemapAuthorization {
        server: server(1, MediaStreamingMode::Redirect),
        session: None,
    };
    let refused = get_video_resource(step, VideoEvent::Remapped(false), &mut sessions, &servers, 0);
    assert_eq!(fails(refused), 400);
}

#[test]
fn a_session_on_the_server_goes_before_that_of_the_request() {
    let mut sessions = SessionStorage::new();
    sessions.add_session(playback_session("s", "user-1", 1), 0);
    let servers = health(1);
    let mut request = prepared("http://proxy/Videos/item-1/stream", None);
    request.sessions = Some(vec![("other", server(1, MediaStreamingMode::Proxy))]);
    let step = VideoStep::GetServer { request, play_session: playback_session("s", "user-1", 1) };
    let event = VideoEvent::Server(Some(Some(server(1, MediaStreamingMode::Proxy))));
    match get_video_resource(step, event, &mut sessions, &servers, 0) {
        VideoStep::RemapAuthorization { session, .. } => assert_eq!(session, Some("other")),
        _ => panic!("no server found"),
    }
    let mut request = prepared("http://proxy/Videos/item-1/stream", None);
    request.server_id = ServerId::new(2);
    let step = VideoStep::GetServer { request, play_session: playback_session("s", "user-1", 1) };
    let event = VideoEvent::Server(Some(Some(server(1, MediaStreamingMode::Proxy))));
    match get_video_resource(step, event, &mut sessions, &servers, 0) {
        VideoStep::RemapAuthorization { session, .. } => assert_eq!(session, None),
        _ => panic!("no server found"),
    }
}
