use jellyswarrm::processors::request_analyzer::{
    AnalysisEvent, AnalysisStep, FieldKinds, RequestAnalysisContext, RequestAnalyzer,
    RequestBodyAnalysisResult, User,
};
use jellyswarrm::server_id::ServerId;
use jellyswarrm::server_storage::{MediaStreamingMode, Server};
use jellyswarrm::server_url::ServerUrl;
use jellyswarrm::session_storage::{PlaybackSession, SessionStorage};
use jellyswarrm::time::Timestamp;

fn server(id: i64) -> Server {
    Server {
        id: ServerId::new(id),
        name: "server".to_string(),
        url: ServerUrl::parse("http://localhost:8096").unwrap(),
        priority: 100,
        media_streaming_mode: MediaStreamingMode::Redirect,
        created_at: Timestamp::from_parts(0, 0),
        updated_at: Timestamp::from_parts(0, 0),
    }
}

fn user(id: &str) -> User {
    User { id: id.to_string() }
}

fn kinds(id: bool, session: bool, user: bool) -> FieldKinds {
    FieldKinds { id, session, user }
}

#[test]
fn the_most_frequent_server_and_user_are_chosen() {
    let mut found = RequestBodyAnalysisResult::default();
    assert!(found.get_server().is_none());
    assert!(found.get_user().is_none());
    found.servers = vec![server(1), server(2), server(3), server(2)];
    found.users = vec![user("a"), user("b"), user("b")];
    assert_eq!(found.get_server().unwrap().id, ServerId::new(2));
    assert_eq!(found.get_user().unwrap().id, "b");
}

#[test]
fn a_field_of_all_kinds_is_looked_up_in_order() {
    let _context = RequestAnalysisContext;
    let analyzer = RequestAnalyzer::new("context");
    assert_eq!(analyzer.data_context, "context");
    let mut found = RequestBodyAnalysisResult::default();
    let mut sessions = SessionStorage::new();
    sessions.add_session(
        PlaybackSession {
            session_id: "x".to_string(),
            item_id: "i".to_string(),
            user_id: "u".to_string(),
            server_id: ServerId::new(4),
        },
        0,
    );
    let all = kinds(true, true, true);
    let step: AnalysisStep<()> = analyzer.begin(all, Some("x"), &mut found, &mut sessions, 1);
    assert!(matches!(step, AnalysisStep::FindMapping));
    let event = AnalysisEvent::Mapping(Ok(Some(server(3))));
    let step = analyzer.analyze(step, event, all, "x", &mut found, &mut sessions, 1);
    assert_eq!(found.found_ids, vec!["x"]);
    assert!(matches!(step, AnalysisStep::GetServer { server_id } if server_id == ServerId::new(4)));
    let event = AnalysisEvent::Server(Ok(Some(server(4))));
    let step = analyzer.analyze(step, event, all, "x", &mut found, &mut sessions, 1);
    assert_eq!(found.found_session_ids, vec!["x"]);
    assert!(matches!(step, AnalysisStep::GetUser));
    let event = AnalysisEvent::User(Ok(Some(user("x"))));
    let step = analyzer.analyze(step, event, all, "x", &mut found, &mut sessions, 1);
    assert!(matches!(step, AnalysisStep::Done));
    assert_eq!(found.found_user_ids, vec!["x"]);
    assert_eq!(found.users.len(), 1);
    let ids: Vec<i64> = found.servers.iter().map(|server| server.id.as_i64()).collect();
    assert_eq!(ids, vec![3, 4]);
}

#[test]
fn what_is_not_found_is_still_noted() {
    let analyzer = RequestAnalyzer::new(());
    let mut found = RequestBodyAnalysisResult::default();
    let mut sessions = SessionStorage::new();
    let step: AnalysisStep<()> =
        analyzer.begin(kinds(false, true, false), Some("s"), &mut found, &mut sessions, 0);
    assert!(matches!(step, AnalysisStep::Done));
    assert_eq!(found.found_session_ids, vec!["s"]);
    let step: AnalysisStep<()> =
        analyzer.begin(kinds(true, true, true), None, &mut found, &mut sessions, 0);
    assert!(matches!(step, AnalysisStep::Done));
    let only_user = kinds(false, false, true);
    let step: AnalysisStep<()> =
        analyzer.begin(only_user, Some("u"), &mut found, &mut sessions, 0);
    let event = AnalysisEvent::User(Ok(None));
    analyzer.analyze(step, event, only_user, "u", &mut found, &mut sessions, 0);
    assert_eq!(found.found_user_ids, vec!["u"]);
    assert!(found.users.is_empty());
    let only_id = kinds(true, false, false);
    let event = AnalysisEvent::Mapping(Ok(None));
    let step: AnalysisStep<()> = AnalysisStep::FindMapping;
    analyzer.analyze(step, event, only_id, "i", &mut found, &mut sessions, 0);
    assert_eq!(found.found_ids, vec!["i"]);
    assert!(found.servers.is_empty());
}

#[test]
fn sessions_of_servers_that_are_gone_are_dropped() {
    let analyzer = RequestAnalyzer::new(());
    let mut found = RequestBodyAnalysisResult::default();
    let mut sessions = SessionStorage::new();
    let session = PlaybackSession {
        session_id: "s".to_string(),
        item_id: "i".to_string(),
        user_id: "u".to_string(),
        server_id: ServerId::new(4),
    };
    sessions.add_session(session, 0);
    let only_session = kinds(false, true, false);
    let step: AnalysisStep<()> =
        analyzer.begin(only_session, Some("s"), &mut found, &mut sessions, 0);
    let event = AnalysisEvent::Server(Ok(None));
    let step = analyzer.analyze(step, event, only_session, "s", &mut found, &mut sessions, 0);
    assert!(matches!(step, AnalysisStep::Done));
    assert!(sessions.get_session("s", 0).is_none());
    assert_eq!(found.found_session_ids, vec!["s"]);
}

#[test]
fn a_lookup_that_fails_ends_the_analysis() {
    let analyzer = RequestAnalyzer::new(());
    let mut found = RequestBodyAnalysisResult::default();
    let mut sessions = SessionStorage::new();
    let all = kinds(true, true, true);
    let events = [
        (AnalysisStep::FindMapping, AnalysisEvent::Mapping(Err("down"))),
        (
            AnalysisStep::GetServer { server_id: ServerId::new(1) },
            AnalysisEvent::Server(Err("down")),
        ),
        (AnalysisStep::GetUser, AnalysisEvent::User(Err("down"))),
    ];
    for (step, event) in events {
        let step = analyzer.analyze(step, event, all, "x", &mut found, &mut sessions, 0);
        assert!(matches!(step, AnalysisStep::Fail("down")));
    }
    assert!(found.found_ids.is_empty());
    assert!(found.found_session_ids.is_empty());
    assert!(found.found_user_ids.is_empty());
}
