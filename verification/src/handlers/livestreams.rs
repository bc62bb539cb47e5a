//! Requests to open a live stream.

use crate::status;
use vstd::prelude::*;

verus! {

/// What a request for playback says of who asks for what.
pub struct PlaybackIds {
    pub user_id: Option<String>,
    pub media_source_id: Option<String>,
}

/// The session of a request: the local user and the user of the server.
pub struct StreamSession {
    pub user_id: String,
    pub original_user_id: String,
}

/// What has to be done next to open a live stream.
pub enum LiveStreamStep {
    /// Prepare the request.
    Preprocess,
    /// Read the payload of the original request.
    ReadPayload { found: Option<StreamSession> },
    /// Look up which item of the server the media source stands for.
    FindMapping { ids: PlaybackIds, session: StreamSession },
    /// Send the request with these identifiers to the server.
    Send { ids: PlaybackIds, session: StreamSession },
    /// Make the media source at `at` one of the proxy.
    ProcessSource { at: usize, count: usize, session: StreamSession },
    /// Remember which server plays the media source at `at` for the user of the session.
    TrackSource { at: usize, count: usize, session: StreamSession },
    /// Answer with the media sources.
    Answer,
    /// Answer with a status.
    Fail(u16),
}

/// What came of a step.
pub enum LiveStreamEvent {
    /// The request could not be prepared.
    NotPreprocessed,
    /// The request was prepared.
    Preprocessed { has_original_request: bool, session: Option<StreamSession> },
    /// The identifiers in the payload, or the status to answer with.
    Payload(Result<PlaybackIds, u16>),
    /// The item of the server, if there is a mapping and it could be read.
    Mapping(Option<String>),
    /// The payload could not be written.
    NotSerialized,
    /// How many media sources the server answered with, or the status to answer with.
    Answered(Result<usize, u16>),
    /// Whether the media source was made one of the proxy, or the status to answer with.
    Processed(Result<(), u16>),
    /// Whether the media source was remembered, or the status to answer with.
    Recorded(Result<(), u16>),
}

/// The identifiers for the server: a user that was given is the one of the session.
pub open spec fn with_session_user(ids: PlaybackIds, session: StreamSession) -> PlaybackIds {
    PlaybackIds {
        user_id: if ids.user_id is Some {
            Some(session.original_user_id)
        } else {
            None
        },
        media_source_id: ids.media_source_id,
    }
}

/// The identifiers for the server, with the item that the media source stands for.
pub open spec fn with_mapping(ids: PlaybackIds, mapping: Option<String>) -> PlaybackIds {
    PlaybackIds {
        user_id: ids.user_id,
        media_source_id: if mapping is Some {
            mapping
        } else {
            ids.media_source_id
        },
    }
}

/// What is done with the media sources from `at` on.
pub open spec fn sources_from(at: int, count: usize, session: StreamSession) -> LiveStreamStep {
    if at < count {
        LiveStreamStep::ProcessSource { at: at as usize, count, session }
    } else {
        LiveStreamStep::Answer
    }
}

/// What follows from the outcome of a step.
pub open spec fn next_live_stream_step(
    step: LiveStreamStep,
    event: LiveStreamEvent,
) -> LiveStreamStep {
    match (step, event) {
        (LiveStreamStep::Preprocess, LiveStreamEvent::NotPreprocessed) => LiveStreamStep::Fail(
            status::BAD_REQUEST,
        ),
        (
            LiveStreamStep::Preprocess,
            LiveStreamEvent::Preprocessed { has_original_request, session },
        ) => if has_original_request {
            LiveStreamStep::ReadPayload { found: session }
        } else {
            LiveStreamStep::Fail(status::BAD_REQUEST)
        },
        (LiveStreamStep::ReadPayload { .. }, LiveStreamEvent::Payload(Err(code))) => {
            LiveStreamStep::Fail(code)
        },
        (LiveStreamStep::ReadPayload { found: None }, LiveStreamEvent::Payload(Ok(_))) => {
            LiveStreamStep::Fail(status::UNAUTHORIZED)
        },
        (
            LiveStreamStep::ReadPayload { found: Some(session) },
            LiveStreamEvent::Payload(Ok(ids)),
        ) => {
            let ids = with_session_user(ids, session);
            if ids.media_source_id is Some {
                LiveStreamStep::FindMapping { ids, session }
            } else {
                LiveStreamStep::Send { ids, session }
            }
        },
        (LiveStreamStep::FindMapping { ids, session }, LiveStreamEvent::Mapping(mapping)) => {
            LiveStreamStep::Send { ids: with_mapping(ids, mapping), session }
        },
        (LiveStreamStep::Send { .. }, LiveStreamEvent::NotSerialized) => LiveStreamStep::Fail(
            status::INTERNAL_SERVER_ERROR,
        ),
        (LiveStreamStep::Send { session, .. }, LiveStreamEvent::Answered(Ok(count))) => {
            sources_from(0, count, session)
        },
        (LiveStreamStep::Send { .. }, LiveStreamEvent::Answered(Err(code))) => {
            LiveStreamStep::Fail(code)
        },
        (
            LiveStreamStep::ProcessSource { at, count, session },
            LiveStreamEvent::Processed(Ok(_)),
        ) => LiveStreamStep::TrackSource { at, count, session },
        (LiveStreamStep::ProcessSource { .. }, LiveStreamEvent::Processed(Err(code))) => {
            LiveStreamStep::Fail(code)
        },
        (
            LiveStreamStep::TrackSource { at, count, session },
            LiveStreamEvent::Recorded(Ok(_)),
        ) => sources_from(at + 1, count, session),
        (LiveStreamStep::TrackSource { .. }, LiveStreamEvent::Recorded(Err(code))) => {
            LiveStreamStep::Fail(code)
        },
        (step, _) => step,
    }
}

/// Whether the place of a media source is one of those that there are.
pub open spec fn is_in_place(step: LiveStreamStep) -> bool {
    match step {
        LiveStreamStep::ProcessSource { at, count, .. } => at < count,
        LiveStreamStep::TrackSource { at, count, .. } => at < count,
        _ => true,
    }
}

/// Goes on with the opening of a live stream.
pub fn post_livestream_open(step: LiveStreamStep, event: LiveStreamEvent) -> (r: LiveStreamStep)
    requires
        is_in_place(step),
    ensures
        r == next_live_stream_step(step, event),
        is_in_place(r),
{
    match (step, event) {
        (LiveStreamStep::Preprocess, LiveStreamEvent::NotPreprocessed) => LiveStreamStep::Fail(
            status::BAD_REQUEST,
        ),
        (
            LiveStreamStep::Preprocess,
            LiveStreamEvent::Preprocessed { has_original_request, session },
        ) => if has_original_request {
            LiveStreamStep::ReadPayload { found: session }
        } else {
            LiveStreamStep::Fail(status::BAD_REQUEST)
        },
        (LiveStreamStep::ReadPayload { .. }, LiveStreamEvent::Payload(Err(code))) => {
            LiveStreamStep::Fail(code)
        },
        (LiveStreamStep::ReadPayload { found: None }, LiveStreamEvent::Payload(Ok(_))) => {
            LiveStreamStep::Fail(status::UNAUTHORIZED)
        },
        (
            LiveStreamStep::ReadPayload { found: Some(session) },
            LiveStreamEvent::Payload(Ok(ids)),
        ) => {
            let user_id = match ids.user_id {
                Some(_) => Some(session.original_user_id.clone()),
                None => None,
            };
            let ids = PlaybackIds { user_id, media_source_id: ids.media_source_id };
            if ids.media_source_id.is_some() {
                LiveStreamStep::FindMapping { ids, session }
            } else {
                LiveStreamStep::Send { ids, session }
            }
        },
        (LiveStreamStep::FindMapping { ids, session }, LiveStreamEvent::Mapping(mapping)) => {
            let media_source_id = match mapping {
                Some(id) => Some(id),
                None => ids.media_source_id,
            };
            LiveStreamStep::Send {
                ids: PlaybackIds { user_id: ids.user_id, media_source_id },
                session,
            }
        },
        (LiveStreamStep::Send { .. }, LiveStreamEvent::NotSerialized) => LiveStreamStep::Fail(
            status::INTERNAL_SERVER_ERROR,
        ),
        (LiveStreamStep::Send { session, .. }, LiveStreamEvent::Answered(Ok(count))) => {
            if 0 < count {
                LiveStreamStep::ProcessSource { at: 0, count, session }
            } else {
                LiveStreamStep::Answer
            }
        },
        (LiveStreamStep::Send { .. }, LiveStreamEvent::Answered(Err(code))) => {
            LiveStreamStep::Fail(code)
        },
        (
            LiveStreamStep::ProcessSource { at, count, session },
            LiveStreamEvent::Processed(Ok(_)),
        ) => LiveStreamStep::TrackSource { at, count, session },
        (LiveStreamStep::ProcessSource { .. }, LiveStreamEvent::Processed(Err(code))) => {
            LiveStreamStep::Fail(code)
        },
        (
            LiveStreamStep::TrackSource { at, count, session },
            LiveStreamEvent::Recorded(Ok(_)),
        ) => if at + 1 < count {
            LiveStreamStep::ProcessSource { at: at + 1, count, session }
        } else {
            LiveStreamStep::Answer
        },
        (LiveStreamStep::TrackSource { .. }, LiveStreamEvent::Recorded(Err(code))) => {
            LiveStreamStep::Fail(code)
        },
        (step, _) => step,
    }
}

/// The server is never told the local identifier of a user: what it is sent is the user of the
/// session, and only where the request named a user.
pub proof fn law_server_sees_its_own_user(ids: PlaybackIds, session: StreamSession)
    ensures
        ({
            let step = LiveStreamStep::ReadPayload { found: Some(session) };
            match next_live_stream_step(step, LiveStreamEvent::Payload(Ok(ids))) {
                LiveStreamStep::FindMapping { ids: sent, .. } => sent.user_id == if ids.user_id
                    is Some {
                    Some(session.original_user_id)
                } else {
                    None
                },
                LiveStreamStep::Send { ids: sent, .. } => sent.user_id == if ids.user_id is Some {
                    Some(session.original_user_id)
                } else {
                    None
                },
                _ => false,
            }
        }),
{
}

/// How far the opening is from its end, in the lexicographic order of the parts.
pub open spec fn live_stream_left(step: LiveStreamStep) -> (int, int) {
    match step {
        LiveStreamStep::Preprocess => (5, 0),
        LiveStreamStep::ReadPayload { .. } => (4, 0),
        LiveStreamStep::FindMapping { .. } => (3, 0),
        LiveStreamStep::Send { .. } => (2, 0),
        LiveStreamStep::ProcessSource { at, count, .. } => (1, 2 * (count - at) + 1),
        LiveStreamStep::TrackSource { at, count, .. } => (1, 2 * (count - at)),
        LiveStreamStep::Answer => (0, 0),
        LiveStreamStep::Fail(_) => (0, 0),
    }
}

/// Whether an event is an outcome of a step.
pub open spec fn answers(step: LiveStreamStep, event: LiveStreamEvent) -> bool {
    match step {
        LiveStreamStep::Preprocess => event is NotPreprocessed || event is Preprocessed,
        LiveStreamStep::ReadPayload { .. } => event is Payload,
        LiveStreamStep::FindMapping { .. } => event is Mapping,
        LiveStreamStep::Send { .. } => event is NotSerialized || event is Answered,
        LiveStreamStep::ProcessSource { .. } => event is Processed,
        LiveStreamStep::TrackSource { .. } => event is Recorded,
        LiveStreamStep::Answer => false,
        LiveStreamStep::Fail(_) => false,
    }
}

/// Each outcome brings the opening of a live stream nearer to its end.
pub proof fn law_live_stream_opening_ends(step: LiveStreamStep, event: LiveStreamEvent)
    requires
        is_in_place(step),
        answers(step, event),
    ensures
        ({
            let before = live_stream_left(step);
            let after = live_stream_left(next_live_stream_step(step, event));
            &&& 0 <= after.0 && 0 <= after.1
            &&& after.0 < before.0 || (after.0 == before.0 && after.1 < before.1)
        }),
{
}

/// The media sources are answered only once each of them was processed and then remembered, one
/// after the other.
pub proof fn law_every_source_is_recorded(step: LiveStreamStep, event: LiveStreamEvent)
    requires
        is_in_place(step),
        !(step is Answer),
    ensures
        next_live_stream_step(step, event) is Answer ==> {
            ||| event == LiveStreamEvent::Answered(Ok(0))
            ||| step matches LiveStreamStep::TrackSource { at, count, .. } && at + 1 == count
        },
        next_live_stream_step(step, event) matches LiveStreamStep::TrackSource { at, .. } ==> {
            ||| step is TrackSource
            ||| step matches LiveStreamStep::ProcessSource { at: a, .. } && a == at
        },
        next_live_stream_step(step, event) matches LiveStreamStep::ProcessSource { at, .. } ==> {
            ||| step is ProcessSource
            ||| step matches LiveStreamStep::TrackSource { at: a, .. } && a + 1 == at
            ||| step is Send && at == 0
        },
{
}

/// The session that a step holds.
pub open spec fn session_of(step: LiveStreamStep) -> Option<StreamSession> {
    match step {
        LiveStreamStep::ReadPayload { found } => found,
        LiveStreamStep::FindMapping { session, .. } => Some(session),
        LiveStreamStep::Send { session, .. } => Some(session),
        LiveStreamStep::ProcessSource { session, .. } => Some(session),
        LiveStreamStep::TrackSource { session, .. } => Some(session),
        _ => None,
    }
}

/// Every step of an opening is taken for the session that the preparation of the request gave: no
/// step changes its users, and none goes on without one.
pub proof fn law_openings_keep_their_session(step: LiveStreamStep, event: LiveStreamEvent)
    requires
        !(step is Preprocess),
    ensures
        ({
            let next = next_live_stream_step(step, event);
            &&& session_of(next) is Some ==> session_of(next) == session_of(step)
            &&& next is FindMapping || next is Send || next is ProcessSource || next is TrackSource
                ==> session_of(step) is Some
        }),
{
}

/// An opening begins with the session that the preparation gave, and only with the original
/// request.
pub proof fn law_openings_begin_with_the_prepared_session(event: LiveStreamEvent)
    ensures
        match event {
            LiveStreamEvent::Preprocessed { has_original_request, session } => next_live_stream_step(
                LiveStreamStep::Preprocess,
                event,
            ) == if has_original_request {
                LiveStreamStep::ReadPayload { found: session }
            } else {
                LiveStreamStep::Fail(400)
            },
            LiveStreamEvent::NotPreprocessed => next_live_stream_step(
                LiveStreamStep::Preprocess,
                event,
            ) == LiveStreamStep::Fail(400),
            _ => next_live_stream_step(LiveStreamStep::Preprocess, event) is Preprocess,
        },
{
}

/// What is sent names the user of the server where the request named a user, and the item of the
/// server where the media source stands for one; a media source that stands for none is sent as it
/// was given.
pub proof fn law_server_is_asked_for_its_own_item(
    given: PlaybackIds,
    session: StreamSession,
    mapping: Option<String>,
)
    ensures
        ({
            let first = next_live_stream_step(
                LiveStreamStep::ReadPayload { found: Some(session) },
                LiveStreamEvent::Payload(Ok(given)),
            );
            let sent = if given.media_source_id is Some {
                next_live_stream_step(first, LiveStreamEvent::Mapping(mapping))
            } else {
                first
            };
            &&& given.media_source_id is Some <==> first is FindMapping
            &&& first matches LiveStreamStep::FindMapping { ids, .. } ==> ids.media_source_id
                == given.media_source_id
            &&& sent matches LiveStreamStep::Send { ids, session: of }
            &&& of == session
            &&& ids.user_id is Some <==> given.user_id is Some
            &&& ids.user_id matches Some(user) ==> user == session.original_user_id
            &&& given.media_source_id is None ==> ids.media_source_id is None
            &&& given.media_source_id is Some && mapping is Some ==> ids.media_source_id == mapping
            &&& given.media_source_id is Some && mapping is None ==> ids.media_source_id
                == given.media_source_id
        }),
{
}

/// Without a session nothing is sent, and each failure ends the opening with its own status.
pub proof fn law_failures_end_the_opening(step: LiveStreamStep, code: u16, ids: PlaybackIds)
    ensures
        step is ReadPayload ==> next_live_stream_step(step, LiveStreamEvent::Payload(Err(code)))
            == LiveStreamStep::Fail(code),
        next_live_stream_step(
            LiveStreamStep::ReadPayload { found: None },
            LiveStreamEvent::Payload(Ok(ids)),
        ) == LiveStreamStep::Fail(401),
        step is Send ==> next_live_stream_step(step, LiveStreamEvent::NotSerialized)
            == LiveStreamStep::Fail(500),
        step is Send ==> next_live_stream_step(step, LiveStreamEvent::Answered(Err(code)))
            == LiveStreamStep::Fail(code),
        step is ProcessSource ==> next_live_stream_step(
            step,
            LiveStreamEvent::Processed(Err(code)),
        ) == LiveStreamStep::Fail(code),
        step is TrackSource ==> next_live_stream_step(step, LiveStreamEvent::Recorded(Err(code)))
            == LiveStreamStep::Fail(code),
{
}

/// Each media source is processed and then remembered, from the first to the last, and then all of
/// them are answered with.
pub proof fn law_sources_are_taken_in_turn(
    ids: PlaybackIds,
    session: StreamSession,
    at: usize,
    count: usize,
)
    requires
        at < count,
    ensures
        next_live_stream_step(
            LiveStreamStep::Send { ids, session },
            LiveStreamEvent::Answered(Ok(count)),
        ) == (LiveStreamStep::ProcessSource { session, at: 0, count }),
        next_live_stream_step(
            LiveStreamStep::Send { ids, session },
            LiveStreamEvent::Answered(Ok(0)),
        ) is Answer,
        next_live_stream_step(
            LiveStreamStep::ProcessSource { at, count, session },
            LiveStreamEvent::Processed(Ok(())),
        ) == (LiveStreamStep::TrackSource { at, count, session }),
        at + 1 < count ==> next_live_stream_step(
            LiveStreamStep::TrackSource { at, count, session },
            LiveStreamEvent::Recorded(Ok(())),
        ) == (LiveStreamStep::ProcessSource { at: (at + 1) as usize, count, session }),
        at + 1 == count ==> next_live_stream_step(
            LiveStreamStep::TrackSource { at, count, session },
            LiveStreamEvent::Recorded(Ok(())),
        ) is Answer,
{
}

/// An event that is no outcome of the current step changes nothing.
pub proof fn law_other_events_leave_openings_alone(step: LiveStreamStep, event: LiveStreamEvent)
    requires
        !answers(step, event),
    ensures
        next_live_stream_step(step, event) == step,
{
}

} // verus!
