use jellyswarrm::handlers::livestreams::{
    post_livestream_open, LiveStreamEvent, LiveStreamStep, PlaybackIds, StreamSession,
};

fn session() -> StreamSession {
    StreamSession { user_id: "local".to_string(), original_user_id: "remote".to_string() }
}

fn ids(user_id: Option<&str>, media_source_id: Option<&str>) -> PlaybackIds {
    PlaybackIds {
        user_id: user_id.map(|id| id.to_string()),
        media_source_id: media_source_id.map(|id| id.to_string()),
    }
}

fn fails(step: LiveStreamStep) -> u16 {
    match step {
        LiveStreamStep::Fail(code) => code,
        _ => 0,
    }
}

#[test]
fn identifiers_become_those_of_the_server() {
    let step = post_livestream_open(
        LiveStreamStep::Preprocess,
        LiveStreamEvent::Preprocessed { has_original_request: true, session: Some(session()) },
    );
    let step = post_livestream_open(
        step,
        LiveStreamEvent::Payload(Ok(ids(Some("local"), Some("virtual")))),
    );
    assert!(matches!(step, LiveStreamStep::FindMapping { .. }));
    let step = post_livestream_open(step, LiveStreamEvent::Mapping(Some("original".to_string())));
    match &step {
        LiveStreamStep::Send { ids, .. } => {
            assert_eq!(ids.user_id.as_deref(), Some("remote"));
            assert_eq!(ids.media_source_id.as_deref(), Some("original"));
        }
        _ => panic!("nothing is sent"),
    }
    let mut step = post_livestream_open(step, LiveStreamEvent::Answered(Ok(2)));
    for place in 0..2 {
        match &step {
            LiveStreamStep::ProcessSource { at, .. } => assert_eq!(*at, place),
            _ => panic!("no source is processed"),
        }
        step = post_livestream_open(step, LiveStreamEvent::Processed(Ok(())));
        assert!(matches!(step, LiveStreamStep::TrackSource { .. }));
        step = post_livestream_open(step, LiveStreamEvent::Recorded(Ok(())));
    }
    assert!(matches!(step, LiveStreamStep::Answer));
}

#[test]
fn what_was_not_given_is_not_added() {
    let step = LiveStreamStep::ReadPayload { found: Some(session()) };
    match post_livestream_open(step, LiveStreamEvent::Payload(Ok(ids(None, None)))) {
        LiveStreamStep::Send { ids, .. } => {
            assert_eq!(ids.user_id, None);
            assert_eq!(ids.media_source_id, None);
        }
        _ => panic!("nothing is sent"),
    }
    let step = LiveStreamStep::FindMapping { ids: ids(None, Some("m")), session: session() };
    match post_livestream_open(step, LiveStreamEvent::Mapping(None)) {
        LiveStreamStep::Send { ids, .. } => assert_eq!(ids.media_source_id.as_deref(), Some("m")),
        _ => panic!("nothing is sent"),
    }
    let step = LiveStreamStep::Send { ids: ids(None, None), session: session() };
    let step = post_livestream_open(step, LiveStreamEvent::Answered(Ok(0)));
    assert!(matches!(step, LiveStreamStep::Answer));
}

#[test]
fn every_failure_has_its_status() {
    let next = |step, event| fails(post_livestream_open(step, event));
    assert_eq!(next(LiveStreamStep::Preprocess, LiveStreamEvent::NotPreprocessed), 400);
    let missing = LiveStreamEvent::Preprocessed { has_original_request: false, session: None };
    assert_eq!(next(LiveStreamStep::Preprocess, missing), 400);
    let read = || LiveStreamStep::ReadPayload { found: None };
    assert_eq!(next(read(), LiveStreamEvent::Payload(Err(422))), 422);
    assert_eq!(next(read(), LiveStreamEvent::Payload(Ok(ids(None, None)))), 401);
    let send = || LiveStreamStep::Send { ids: ids(None, None), session: session() };
    assert_eq!(next(send(), LiveStreamEvent::NotSerialized), 500);
    assert_eq!(next(send(), LiveStreamEvent::Answered(Err(503))), 503);
    let process = LiveStreamStep::ProcessSource { at: 0, count: 1, session: session() };
    assert_eq!(next(process, LiveStreamEvent::Processed(Err(500))), 500);
    let track = LiveStreamStep::TrackSource { at: 0, count: 1, session: session() };
    assert_eq!(next(track, LiveStreamEvent::Recorded(Err(404))), 404);
}
