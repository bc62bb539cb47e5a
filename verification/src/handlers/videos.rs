//! Requests for video streams and what belongs to them.

use crate::picking;
use crate::server_id::ServerId;
use crate::server_storage::{self, MediaStreamingMode, Server, ServerStorageService};
use crate::session_storage::{self, PlaybackSession, SessionStorage};
use crate::status;
use crate::text;
use vstd::prelude::*;

verus! {

#[verifier::external_type_specification]
#[verifier::external_body]
#[verifier::reject_recursive_types(T)]
pub struct ExHeaderMap<T>(hyper::HeaderMap<T>);

#[verifier::external_type_specification]
#[verifier::external_body]
pub struct ExHeaderValue(hyper::header::HeaderValue);

/// What a map of headers holds: for each name, in lower case, the bytes of its values in order.
pub uninterp spec fn header_values(
    headers: hyper::HeaderMap<hyper::header::HeaderValue>,
) -> Map<Seq<char>, Seq<Seq<u8>>>;

/// Whether a text is a name of a header in lower case, made of letters and hyphens.
pub open spec fn is_plain_name(name: Seq<char>) -> bool {
    &&& 0 < name.len() <= 64
    &&& forall|i: int|
        0 <= i < name.len() ==> ('a' <= #[trigger] name[i] && name[i] <= 'z') || name[i] == '-'
}

/// `hyper::HeaderMap::remove`: all values of the name leave, and nothing else does.
#[verifier::external_body]
fn remove_header(headers: &mut hyper::HeaderMap<hyper::header::HeaderValue>, name: &str)
    requires
        is_plain_name(name@),
    ensures
        header_values(*final(headers)) == header_values(*old(headers)).remove(name@),
{
    headers.remove(name);
}

/// The names of the headers that concern one connection only.
pub open spec fn hop_by_hop() -> Set<Seq<char>> {
    set![
        "connection"@,
        "keep-alive"@,
        "proxy-authenticate"@,
        "proxy-authorization"@,
        "te"@,
        "trailer"@,
        "transfer-encoding"@,
        "upgrade"@,
    ]
}

/// Takes the headers out that concern one connection only; all others stay.
pub fn strip_hop_by_hop_headers(headers: &mut hyper::HeaderMap<hyper::header::HeaderValue>)
    ensures
        header_values(*final(headers)) == header_values(*old(headers)).remove_keys(hop_by_hop()),
{
    proof {
        reveal_strlit("connection");
        reveal_strlit("keep-alive");
        reveal_strlit("proxy-authenticate");
        reveal_strlit("proxy-authorization");
        reveal_strlit("te");
        reveal_strlit("trailer");
        reveal_strlit("transfer-encoding");
        reveal_strlit("upgrade");
    }
    remove_header(headers, "connection");
    remove_header(headers, "keep-alive");
    remove_header(headers, "proxy-authenticate");
    remove_header(headers, "proxy-authorization");
    remove_header(headers, "te");
    remove_header(headers, "trailer");
    remove_header(headers, "transfer-encoding");
    remove_header(headers, "upgrade");
    assert(header_values(*headers) =~= header_values(*old(headers)).remove_keys(hop_by_hop()));
}

/// Whether a segment of a path is the one behind which videos are named.
pub open spec fn is_videos(segment: Seq<char>) -> bool {
    text::ascii_lower_all(segment) == text::ascii_lower_all("Videos"@)
}

/// The segment behind the first one that is `Videos`, if there is one and it is not empty.
pub open spec fn behind_videos(segments: Seq<Seq<char>>) -> Option<Seq<char>>
    decreases segments.len(),
{
    if segments.len() == 0 {
        None
    } else if is_videos(segments[0]) {
        if segments.len() > 1 && segments[1].len() > 0 {
            Some(segments[1])
        } else {
            None
        }
    } else {
        behind_videos(segments.skip(1))
    }
}

/// The video that a path names.
pub open spec fn video_id(path: Seq<char>) -> Option<Seq<char>> {
    behind_videos(text::split_on(text::trimmed(path, text::CharClass::Slash), '/'))
}

/// The video that a path names: the segment behind `Videos`, in any case.
pub fn extract_video_id(path: &str) -> (r: Option<&str>)
    ensures
        match video_id(path@) {
            Some(id) => r matches Some(s) && s@ == id,
            None => r is None,
        },
{
    let segments = text::split(text::trim(path, text::CharClass::Slash), '/');
    let ghost all = text::str_views(segments@);
    let mut i: usize = 0;
    assert(all.skip(0) =~= all);
    while i < segments.len()
        invariant
            i <= segments.len(),
            all == text::str_views(segments@),
            video_id(path@) == behind_videos(all),
            behind_videos(all) == behind_videos(all.skip(i as int)),
        decreases segments.len() - i,
    {
        assert(all.skip(i as int).skip(1) =~= all.skip(i + 1));
        if text::eq_ignore_ascii_case(segments[i], "Videos") {
            if i + 1 < segments.len() && !segments[i + 1].is_empty() {
                return Some(segments[i + 1]);
            }
            return None;
        }
        i = i + 1;
    }
    None
}

/// The pairs of names and values in the query of a URL, decoded.
pub uninterp spec fn url_query_pairs(url: url::Url) -> Seq<(Seq<char>, Seq<char>)>;

/// The path of a URL.
pub uninterp spec fn url_path(url: url::Url) -> Seq<char>;

/// What pairs of texts say.
pub open spec fn pair_views(pairs: Seq<(String, String)>) -> Seq<(Seq<char>, Seq<char>)> {
    pairs.map_values(|pair: (String, String)| (pair.0@, pair.1@))
}

/// `url::Url::query_pairs`: the pairs depend on the URL alone.
#[verifier::external_body]
fn query_pairs(url: &url::Url) -> (r: Vec<(String, String)>)
    ensures
        pair_views(r@) == url_query_pairs(*url),
{
    url.query_pairs().into_owned().collect()
}

/// `url::Url::path`: the path depends on the URL alone.
#[verifier::external_body]
fn path_of(url: &url::Url) -> (r: &str)
    ensures
        r@ == url_path(*url),
{
    url.path()
}

/// Whether a pair of a query names a playback session.
pub open spec fn names_session(pair: (Seq<char>, Seq<char>)) -> bool {
    &&& {
        ||| text::ascii_lower_all(pair.0) == text::ascii_lower_all("PlaySessionId"@)
        ||| text::ascii_lower_all(pair.0) == text::ascii_lower_all("SessionId"@)
    }
    &&& pair.1.len() > 0
}

/// The playback session that the first fitting pair names.
pub open spec fn named_session(pairs: Seq<(Seq<char>, Seq<char>)>) -> Option<Seq<char>>
    decreases pairs.len(),
{
    if pairs.len() == 0 {
        None
    } else if names_session(pairs[0]) {
        Some(pairs[0].1)
    } else {
        named_session(pairs.skip(1))
    }
}

/// The playback session that the pairs of a query name. Empty values are passed over.
pub fn play_session_id_among(pairs: &Vec<(String, String)>) -> (r: Option<String>)
    ensures
        match named_session(pair_views(pairs@)) {
            Some(id) => r matches Some(s) && s@ == id,
            None => r is None,
        },
{
    let ghost all = pair_views(pairs@);
    let mut i: usize = 0;
    assert(all.skip(0) =~= all);
    while i < pairs.len()
        invariant
            i <= pairs.len(),
            all == pair_views(pairs@),
            named_session(all) == named_session(all.skip(i as int)),
        decreases pairs.len() - i,
    {
        assert(all.skip(i as int).skip(1) =~= all.skip(i + 1));
        let key = pairs[i].0.as_str();
        if (text::eq_ignore_ascii_case(key, "PlaySessionId") || text::eq_ignore_ascii_case(
            key,
            "SessionId",
        )) && !pairs[i].1.as_str().is_empty() {
            return Some(pairs[i].1.clone());
        }
        i = i + 1;
    }
    None
}

/// The playback session that a URL names in its query.
pub fn extract_play_session_id(url: &url::Url) -> (r: Option<String>)
    ensures
        match named_session(url_query_pairs(*url)) {
            Some(id) => r matches Some(s) && s@ == id,
            None => r is None,
        },
{
    play_session_id_among(&query_pairs(url))
}

/// Whether a session is one of a user, if a user is given.
pub open spec fn is_of_user(session: PlaybackSession, user_id: Option<Seq<char>>) -> bool {
    user_id matches Some(user_id) ==> session.user_id@ == user_id
}

/// The sessions of a user, or all of them.
pub open spec fn of_user(
    candidates: Seq<PlaybackSession>,
    user_id: Option<Seq<char>>,
) -> Seq<PlaybackSession> {
    candidates.filter(|session: PlaybackSession| is_of_user(session, user_id))
}

/// The only session of a user, or the only one; otherwise how many there are.
pub fn single_matching_play_session(
    candidates: Vec<PlaybackSession>,
    user_id: Option<&str>,
) -> (r: Result<PlaybackSession, usize>)
    ensures
        ({
            let matching = of_user(candidates@, text::optional_str(user_id));
            if matching.len() == 1 {
                r == Ok::<PlaybackSession, usize>(matching[0])
            } else {
                r matches Err(count) && count == matching.len()
            }
        }),
{
    let ghost rule = |session: PlaybackSession| is_of_user(session, text::optional_str(user_id));
    let mut matching: Vec<PlaybackSession> = Vec::new();
    let mut i: usize = 0;
    proof {
        reveal(Seq::filter);
        assert(candidates@.take(0) =~= Seq::empty());
    }
    while i < candidates.len()
        invariant
            i <= candidates.len(),
            rule == (|session: PlaybackSession| is_of_user(session, text::optional_str(user_id))),
            matching@ == candidates@.take(i as int).filter(rule),
        decreases candidates.len() - i,
    {
        proof {
            reveal(Seq::filter);
            assert(candidates@.take(i + 1).drop_last() =~= candidates@.take(i as int));
        }
        let keep = match user_id {
            Some(user_id) => text::str_eq(candidates[i].user_id.as_str(), user_id),
            None => true,
        };
        if keep {
            matching.push(candidates[i].clone());
        }
        i = i + 1;
    }
    assert(candidates@.take(i as int) =~= candidates@);
    if matching.len() == 1 {
        Ok(matching.remove(0))
    } else {
        Err(matching.len())
    }
}

/// The first of some sessions that is one on a server.
pub open spec fn first_on_server<A>(sessions: Seq<(A, Server)>, id: ServerId) -> Option<A>
    decreases sessions.len(),
{
    if sessions.len() == 0 {
        None
    } else if sessions[0].1.id == id {
        Some(sessions[0].0)
    } else {
        first_on_server(sessions.skip(1), id)
    }
}

/// The session on a server, if there are sessions.
pub open spec fn session_on<A>(sessions: Option<Vec<(A, Server)>>, id: ServerId) -> Option<A> {
    match sessions {
        Some(sessions) => first_on_server(sessions@, id),
        None => None,
    }
}

/// The first session that is one on a server.
pub fn session_for_server<A>(sessions: Option<Vec<(A, Server)>>, server: &Server) -> (r: Option<A>)
    ensures
        r == session_on(sessions, server.id),
{
    let mut known: Vec<(A, Server)> = match sessions {
        Some(known) => known,
        None => return None,
    };
    let ghost all = known@;
    let mut i: usize = 0;
    assert(all.skip(0) =~= all);
    while i < known.len()
        invariant
            i <= known.len(),
            all == known@,
            session_on(sessions, server.id) == first_on_server(all, server.id),
            first_on_server(all, server.id) == first_on_server(all.skip(i as int), server.id),
        decreases known.len() - i,
    {
        assert(all.skip(i as int).skip(1) =~= all.skip(i + 1));
        if known[i].1.id == server.id {
            let (session, _) = known.remove(i);
            return Some(session);
        }
        i = i + 1;
    }
    None
}

/// What the preparation of a request has found out.
pub struct PreparedRequest<A> {
    /// The address as the client asked for it.
    pub original_url: Option<url::Url>,
    /// The user, if there is one.
    pub user_id: Option<String>,
    /// The session of the request.
    pub session: Option<A>,
    /// The user of that session.
    pub session_user_id: Option<String>,
    /// The server that the request was prepared for.
    pub server_id: ServerId,
    /// All sessions of the user with their servers.
    pub sessions: Option<Vec<(A, Server)>>,
}

/// How a medium gets to the client.
#[derive(Debug, Clone, Copy, PartialEq, Eq, Structural)]
pub enum Delivery {
    /// The client is sent to the address at the server, for the time being.
    Redirect,
    /// The proxy asks the server and passes the answer on.
    Proxy,
}

/// What has to be done next to answer a request for a video.
pub enum VideoStep<A> {
    /// Prepare the request.
    Preprocess,
    /// Look up the server of a playback session.
    GetServer { request: PreparedRequest<A>, play_session: PlaybackSession },
    /// Make the authorization one for the session on the server.
    RemapAuthorization { server: Server, session: Option<A> },
    /// Point the original request to the server, then deliver.
    Deliver { server: Server, session: Option<A>, delivery: Delivery },
    /// Answer with a status.
    Fail(u16),
}

/// What came of a step.
pub enum VideoEvent<A> {
    /// The prepared request, if it could be prepared.
    Preprocessed(Option<PreparedRequest<A>>),
    /// The server, if there is one, or nothing if it could not be looked up.
    Server(Option<Option<Server>>),
    /// Whether the authorization could be made.
    Remapped(bool),
}

/// The user of a request: its own, else that of its session.
pub open spec fn request_user<A>(request: PreparedRequest<A>) -> Option<Seq<char>> {
    match request.user_id {
        Some(id) => Some(id@),
        None => match request.session_user_id {
            Some(id) => Some(id@),
            None => None,
        },
    }
}

/// The playback session that a video belongs to: the named one, else the only one of the user.
pub open spec fn wanted_play_session(
    sessions: Seq<session_storage::TrackedPlaybackSession>,
    video: Seq<char>,
    named: Option<Seq<char>>,
    user_id: Option<Seq<char>>,
) -> Option<PlaybackSession> {
    match named {
        Some(session_id) => session_storage::newest(
            sessions,
            session_storage::Wanted::SessionAndItem { session_id, item_id: video },
        ),
        None => {
            let matching = of_user(
                session_storage::newest_first(
                    sessions,
                    session_storage::Wanted::Item { item_id: video },
                ),
                user_id,
            );
            if matching.len() == 1 {
                Some(matching[0])
            } else {
                None
            }
        },
    }
}

/// The live sessions after a request for an address: only a request that names a video makes the
/// stale ones leave.
pub open spec fn live_sessions(
    sessions: Seq<session_storage::TrackedPlaybackSession>,
    session_ttl: u128,
    url: url::Url,
    now: u128,
) -> Seq<session_storage::TrackedPlaybackSession> {
    if video_id(url_path(url)) is Some {
        session_storage::alive(sessions, session_ttl, now)
    } else {
        sessions
    }
}

/// The live sessions of a store after a request for an address.
pub open spec fn sessions_after_request(
    storage: SessionStorage,
    url: url::Url,
    now: u128,
) -> Seq<session_storage::TrackedPlaybackSession> {
    live_sessions(storage@, storage.ttl(), url, now)
}

/// Finds the playback session that a request for a video belongs to.
pub fn find_play_session(
    play_sessions: &mut SessionStorage,
    url: &url::Url,
    user_id: Option<&str>,
    now: u128,
) -> (r: Option<PlaybackSession>)
    ensures
        final(play_sessions)@ == sessions_after_request(*old(play_sessions), *url, now),
        final(play_sessions).ttl() == old(play_sessions).ttl(),
        old(play_sessions).well_formed() ==> final(play_sessions).well_formed(),
        r == match video_id(url_path(*url)) {
            Some(id) => wanted_play_session(
                final(play_sessions)@,
                id,
                named_session(url_query_pairs(*url)),
                text::optional_str(user_id),
            ),
            None => None,
        },
{
    let id = match extract_video_id(path_of(url)) {
        Some(id) => id,
        None => return None,
    };
    match extract_play_session_id(url) {
        Some(session_id) => play_sessions.get_session_by_session_and_item_id(
            session_id.as_str(),
            id,
            now,
        ),
        None => {
            let candidates = play_sessions.get_sessions_by_item_id(id, now);
            match single_matching_play_session(candidates, user_id) {
                Ok(session) => Some(session),
                Err(_) => None,
            }
        },
    }
}

/// How a server has its media delivered.
pub open spec fn delivery_of(mode: MediaStreamingMode) -> Delivery {
    match mode {
        MediaStreamingMode::Redirect => Delivery::Redirect,
        MediaStreamingMode::Proxy => Delivery::Proxy,
    }
}

/// How a server has its media delivered.
pub fn delivery(mode: MediaStreamingMode) -> (r: Delivery)
    ensures
        r == delivery_of(mode),
{
    match mode {
        MediaStreamingMode::Redirect => Delivery::Redirect,
        MediaStreamingMode::Proxy => Delivery::Proxy,
    }
}

/// The session that a request is passed on with: the one on the server, else that of the request
/// if it was prepared for the server.
pub open spec fn upstream_session<A>(request: PreparedRequest<A>, id: ServerId) -> Option<A> {
    match session_on(request.sessions, id) {
        Some(session) => Some(session),
        None => if request.server_id == id {
            request.session
        } else {
            None
        },
    }
}

/// Whether a step follows from the outcome of another, and `after` are the playback sessions then.
pub open spec fn video_step_follows<A>(
    step: VideoStep<A>,
    event: VideoEvent<A>,
    before: Seq<session_storage::TrackedPlaybackSession>,
    session_ttl: u128,
    known: Map<i64, server_storage::ServerHealthStatus>,
    now: u128,
    next: VideoStep<A>,
    after: Seq<session_storage::TrackedPlaybackSession>,
) -> bool {
    match (step, event) {
        (VideoStep::Preprocess, VideoEvent::Preprocessed(None)) => next == VideoStep::<A>::Fail(
            status::BAD_REQUEST,
        ) && after == before,
        (VideoStep::Preprocess, VideoEvent::Preprocessed(Some(request))) => {
            match request.original_url {
                None => next == VideoStep::<A>::Fail(status::BAD_REQUEST) && after == before,
                Some(url) => {
                    &&& after == live_sessions(before, session_ttl, url, now)
                    &&& match video_id(url_path(url)) {
                        None => next == VideoStep::<A>::Fail(status::NOT_FOUND),
                        Some(id) => match wanted_play_session(
                            after,
                            id,
                            named_session(url_query_pairs(url)),
                            request_user(request),
                        ) {
                            Some(play_session) => next == (VideoStep::GetServer {
                                request,
                                play_session,
                            }),
                            None => next == VideoStep::<A>::Fail(status::NOT_FOUND),
                        },
                    }
                },
            }
        },
        (VideoStep::GetServer { request, play_session }, VideoEvent::Server(found)) => {
            match found {
                None => next == VideoStep::<A>::Fail(status::INTERNAL_SERVER_ERROR) && after
                    == before,
                Some(None) => next == VideoStep::<A>::Fail(status::NOT_FOUND) && after
                    == session_storage::kept(
                    before,
                    session_storage::Keep::OtherServers { server_id: play_session.server_id },
                ),
                Some(Some(server)) => {
                    &&& after == before
                    &&& if server_storage::is_healthy(known, server.id) {
                        next == (VideoStep::RemapAuthorization {
                            server,
                            session: upstream_session(request, server.id),
                        })
                    } else {
                        next == VideoStep::<A>::Fail(status::NOT_FOUND)
                    }
                },
            }
        },
        (VideoStep::RemapAuthorization { server, session }, VideoEvent::Remapped(done)) => {
            &&& after == before
            &&& if done {
                next == (VideoStep::Deliver {
                    server,
                    session,
                    delivery: delivery_of(server.media_streaming_mode),
                })
            } else {
                next == VideoStep::<A>::Fail(status::BAD_REQUEST)
            }
        },
        (step, _) => next == step && after == before,
    }
}

/// Goes on with the answer to a request for a video. Where the server of the playback session is
/// gone, so are the sessions on it.
pub fn get_video_resource<A>(
    step: VideoStep<A>,
    event: VideoEvent<A>,
    play_sessions: &mut SessionStorage,
    servers: &ServerStorageService,
    now: u128,
) -> (r: VideoStep<A>)
    ensures
        final(play_sessions).ttl() == old(play_sessions).ttl(),
        old(play_sessions).well_formed() ==> final(play_sessions).well_formed(),
        video_step_follows(
            step,
            event,
            old(play_sessions)@,
            old(play_sessions).ttl(),
            servers@,
            now,
            r,
            final(play_sessions)@,
        ),
{
    match (step, event) {
        (VideoStep::Preprocess, VideoEvent::Preprocessed(None)) => VideoStep::Fail(
            status::BAD_REQUEST,
        ),
        (VideoStep::Preprocess, VideoEvent::Preprocessed(Some(request))) => {
            let found = match &request.original_url {
                None => return VideoStep::Fail(status::BAD_REQUEST),
                Some(url) => {
                    let user_id = match &request.user_id {
                        Some(id) => Some(id.as_str()),
                        None => match &request.session_user_id {
                            Some(id) => Some(id.as_str()),
                            None => None,
                        },
                    };
                    find_play_session(play_sessions, url, user_id, now)
                },
            };
            match found {
                Some(play_session) => VideoStep::GetServer { request, play_session },
                None => VideoStep::Fail(status::NOT_FOUND),
            }
        },
        (VideoStep::GetServer { request, play_session }, VideoEvent::Server(found)) => {
            match found {
                None => VideoStep::Fail(status::INTERNAL_SERVER_ERROR),
                Some(None) => {
                    play_sessions.remove_sessions_for_server(play_session.server_id);
                    VideoStep::Fail(status::NOT_FOUND)
                },
                Some(Some(server)) => {
                    if !servers.server_status(server.id).is_healthy() {
                        return VideoStep::Fail(status::NOT_FOUND);
                    }
                    let PreparedRequest { session, server_id, sessions, .. } = request;
                    let session = match session_for_server(sessions, &server) {
                        Some(session) => Some(session),
                        None => if server_id == server.id {
                            session
                        } else {
                            None
                        },
                    };
                    VideoStep::RemapAuthorization { server, session }
                },
            }
        },
        (VideoStep::RemapAuthorization { server, session }, VideoEvent::Remapped(done)) => if done {
            let delivery = delivery(server.media_streaming_mode);
            VideoStep::Deliver { server, session, delivery }
        } else {
            VideoStep::Fail(status::BAD_REQUEST)
        },
        (step, _) => step,
    }
}

/// How a stream is delivered from the server that a request was prepared for, if it could be
/// prepared; otherwise the status to answer with.
pub fn get_stream(mode: Option<MediaStreamingMode>) -> (r: Result<Delivery, u16>)
    ensures
        match mode {
            Some(mode) => r == Ok::<Delivery, u16>(delivery_of(mode)),
            None => r == Err::<Delivery, u16>(status::BAD_REQUEST),
        },
{
    match mode {
        Some(mode) => Ok(delivery(mode)),
        None => Err(status::BAD_REQUEST),
    }
}

/// A playback session that was added is the one to which a request with its identifier for its
/// item belongs, as long as it is alive.
pub proof fn law_named_session_is_found(
    s: Seq<session_storage::TrackedPlaybackSession>,
    session_ttl: u128,
    session: PlaybackSession,
    now: u128,
    later: u128,
    user_id: Option<Seq<char>>,
)
    requires
        session_storage::is_fresh(now, session_ttl, later),
    ensures
        wanted_play_session(
            session_storage::alive(
                session_storage::upserted(
                    session_storage::alive(s, session_ttl, now),
                    session,
                    now,
                ),
                session_ttl,
                later,
            ),
            session.item_id@,
            Some(session.session_id@),
            user_id,
        ) == Some(session),
{
    session_storage::law_added_session_is_found(s, session_ttl, session, now, later);
}

/// A request without the identifier of a session is never answered out of the session of another
/// user, nor with another item.
pub proof fn law_play_session_fits(
    sessions: Seq<session_storage::TrackedPlaybackSession>,
    video: Seq<char>,
    user_id: Seq<char>,
)
    ensures
        wanted_play_session(sessions, video, None, Some(user_id)) matches Some(session)
            ==> session.user_id@ == user_id && session.item_id@ == video,
{
    let wanted = session_storage::Wanted::Item { item_id: video };
    let candidates = session_storage::newest_first(sessions, wanted);
    let rule = |session: PlaybackSession| is_of_user(session, Some(user_id));
    let matching = of_user(candidates, Some(user_id));
    if matching.len() == 1 {
        candidates.lemma_filter_pred(rule, 0);
        candidates.lemma_filter_contains_rev(rule, matching[0]);
        let k = choose|k: int| 0 <= k < candidates.len() && candidates[k] == matching[0];
        session_storage::law_lookup_hands_out_wanted_entries(sessions, wanted, k);
    }
}

/// Whether a session is the first one on a server.
pub open spec fn is_first_on<A>(sessions: Seq<(A, Server)>, id: ServerId, session: A) -> bool {
    exists|i: int|
        0 <= i < sessions.len() && (#[trigger] sessions[i]).0 == session && sessions[i].1.id == id
            && forall|j: int| 0 <= j < i ==> (#[trigger] sessions[j]).1.id != id
}

proof fn lemma_first_on_server<A>(sessions: Seq<(A, Server)>, id: ServerId)
    ensures
        match first_on_server(sessions, id) {
            Some(session) => is_first_on(sessions, id, session),
            None => forall|j: int| 0 <= j < sessions.len() ==> (#[trigger] sessions[j]).1.id != id,
        },
    decreases sessions.len(),
{
    if sessions.len() > 0 {
        if sessions[0].1.id == id {
            assert(is_first_on(sessions, id, sessions[0].0));
        } else {
            let rest = sessions.skip(1);
            lemma_first_on_server(rest, id);
            match first_on_server(rest, id) {
                Some(session) => {
                    let i = choose|i: int|
                        0 <= i < rest.len() && (#[trigger] rest[i]).0 == session && rest[i].1.id
                            == id && forall|j: int|
                            0 <= j < i ==> (#[trigger] rest[j]).1.id != id;
                    assert(sessions[i + 1] == rest[i]);
                    assert forall|j: int| 0 <= j < i + 1 implies (#[trigger] sessions[j]).1.id
                        != id by {
                        if j > 0 {
                            assert(rest[j - 1] == sessions[j]);
                        }
                    }
                },
                None => {
                    assert forall|j: int| 0 <= j < sessions.len() implies (
                    #[trigger] sessions[j]).1.id != id by {
                        if j > 0 {
                            assert(rest[j - 1] == sessions[j]);
                        }
                    }
                },
            }
        }
    }
}

/// A session is found for a server exactly where there is one on it, and it is the first such one.
pub proof fn law_first_session_on_the_server_is_found<A>(
    sessions: Option<Vec<(A, Server)>>,
    id: ServerId,
)
    ensures
        session_on(sessions, id) matches Some(session) ==> (sessions matches Some(list)
            && is_first_on(list@, id, session)),
        session_on(sessions, id) is None ==> (sessions matches Some(list) ==> forall|j: int|
            0 <= j < list.len() ==> (#[trigger] list[j]).1.id != id),
{
    if let Some(list) = sessions {
        lemma_first_on_server(list@, id);
        assert forall|j: int|
            0 <= j < list.len() && session_on(sessions, id) is None implies (
        #[trigger] list[j]).1.id != id by {
            assert(list@[j].1.id != id);
        }
    }
}

/// The video is asked for at the server that was looked up for its playback session, and with the
/// user's session on that server: the first one that there is, whichever server the request was
/// prepared for. Only where there is none the session of the request counts, and only if the
/// request was prepared for that server.
pub proof fn law_video_is_asked_for_with_the_session_on_its_server<A>(
    request: PreparedRequest<A>,
    play_session: PlaybackSession,
    server: Server,
    before: Seq<session_storage::TrackedPlaybackSession>,
    session_ttl: u128,
    known: Map<i64, server_storage::ServerHealthStatus>,
    now: u128,
    next: VideoStep<A>,
    after: Seq<session_storage::TrackedPlaybackSession>,
)
    requires
        video_step_follows(
            VideoStep::GetServer { request, play_session },
            VideoEvent::Server(Some(Some(server))),
            before,
            session_ttl,
            known,
            now,
            next,
            after,
        ),
    ensures
        after == before,
        known.contains_key(server.id.0) && known[server.id.0] is Healthy
            <==> next is RemapAuthorization,
        !(next is RemapAuthorization) ==> next == VideoStep::<A>::Fail(404),
        next matches VideoStep::RemapAuthorization { server: asked, session } ==> {
            let has_one = request.sessions matches Some(list) && exists|i: int|
                0 <= i < list.len() && (#[trigger] list[i]).1.id == server.id;
            &&& asked == server
            &&& has_one ==> (session matches Some(session) && is_first_on(
                request.sessions->0@,
                server.id,
                session,
            ))
            &&& !has_one && request.server_id == server.id ==> session == request.session
            &&& !has_one && request.server_id != server.id ==> session is None
        },
{
    law_first_session_on_the_server_is_found(request.sessions, server.id);
    if let Some(list) = request.sessions {
        if let Some(session) = session_on(request.sessions, server.id) {
            let i = choose|i: int|
                0 <= i < list@.len() && (#[trigger] list@[i]).0 == session && list@[i].1.id
                    == server.id && forall|j: int|
                    0 <= j < i ==> (#[trigger] list@[j]).1.id != server.id;
            assert(list[i].1.id == server.id);
        }
    }
}

/// Where the server of a playback session is gone, exactly the sessions on it leave; where it could
/// not be looked up, none does. Either way the request fails.
pub proof fn law_sessions_of_a_server_that_is_gone_leave<A>(
    request: PreparedRequest<A>,
    play_session: PlaybackSession,
    found: Option<Option<Server>>,
    before: Seq<session_storage::TrackedPlaybackSession>,
    session_ttl: u128,
    known: Map<i64, server_storage::ServerHealthStatus>,
    now: u128,
    next: VideoStep<A>,
    after: Seq<session_storage::TrackedPlaybackSession>,
)
    requires
        video_step_follows(
            VideoStep::GetServer { request, play_session },
            VideoEvent::Server(found),
            before,
            session_ttl,
            known,
            now,
            next,
            after,
        ),
    ensures
        found is None ==> next == VideoStep::<A>::Fail(500) && after == before,
        found == Some(None::<Server>) ==> next == VideoStep::<A>::Fail(404) && picking::are_picked(
            before,
            after,
            |entry: session_storage::TrackedPlaybackSession|
                entry.session.server_id != play_session.server_id,
        ),
{
    let keep = session_storage::Keep::OtherServers { server_id: play_session.server_id };
    let keeps = |entry: session_storage::TrackedPlaybackSession| keep.keeps(entry);
    let wanted = |entry: session_storage::TrackedPlaybackSession|
        entry.session.server_id != play_session.server_id;
    assert(keeps =~= wanted);
    let places = picking::lemma_filter_picks(before, keeps);
    assert(picking::is_picking(before, before.filter(keeps), wanted, places));
}

/// A request that was prepared goes on to the server of the playback session that it belongs to,
/// and carries everything along that it was prepared with. It fails where it could not be prepared
/// or has no address, and where it belongs to no playback session.
pub proof fn law_prepared_requests_go_on<A>(
    prepared: Option<PreparedRequest<A>>,
    before: Seq<session_storage::TrackedPlaybackSession>,
    session_ttl: u128,
    known: Map<i64, server_storage::ServerHealthStatus>,
    now: u128,
    next: VideoStep<A>,
    after: Seq<session_storage::TrackedPlaybackSession>,
)
    requires
        video_step_follows(
            VideoStep::<A>::Preprocess,
            VideoEvent::Preprocessed(prepared),
            before,
            session_ttl,
            known,
            now,
            next,
            after,
        ),
    ensures
        prepared is None || prepared->0.original_url is None ==> next == VideoStep::<A>::Fail(400)
            && after == before,
        prepared matches Some(request) ==> (request.original_url matches Some(url) ==> match next {
            VideoStep::GetServer { request: carried, play_session } => {
                &&& carried == request
                &&& video_id(url_path(url)) matches Some(id)
                &&& wanted_play_session(
                    after,
                    id,
                    named_session(url_query_pairs(url)),
                    match (request.user_id, request.session_user_id) {
                        (Some(id), _) => Some(id@),
                        (None, Some(id)) => Some(id@),
                        (None, None) => None,
                    },
                ) == Some(play_session)
            },
            VideoStep::Fail(code) => {
                &&& code == 404
                &&& video_id(url_path(url)) matches Some(id) ==> wanted_play_session(
                    after,
                    id,
                    named_session(url_query_pairs(url)),
                    match (request.user_id, request.session_user_id) {
                        (Some(id), _) => Some(id@),
                        (None, Some(id)) => Some(id@),
                        (None, None) => None,
                    },
                ) is None
            },
            _ => false,
        }),
{
}

/// Once the authorization was made, the video is delivered from the server that it was made for,
/// with the same session, and in the way that this server has its media delivered.
pub proof fn law_video_is_delivered_from_its_server<A>(
    server: Server,
    session: Option<A>,
    done: bool,
    before: Seq<session_storage::TrackedPlaybackSession>,
    session_ttl: u128,
    known: Map<i64, server_storage::ServerHealthStatus>,
    now: u128,
    next: VideoStep<A>,
    after: Seq<session_storage::TrackedPlaybackSession>,
)
    requires
        video_step_follows(
            VideoStep::RemapAuthorization { server, session },
            VideoEvent::Remapped(done),
            before,
            session_ttl,
            known,
            now,
            next,
            after,
        ),
    ensures
        after == before,
        !done ==> next == VideoStep::<A>::Fail(400),
        done ==> (next matches VideoStep::Deliver { server: from, session: with, delivery } && from
            == server && with == session && (delivery == Delivery::Redirect
            <==> server.media_streaming_mode == MediaStreamingMode::Redirect)),
{
}

/// The video that a path names stands in the first segment behind one that is `Videos` in any case.
/// Where that is missing or empty, the path names none.
pub proof fn law_video_stands_behind_videos(segments: Seq<Seq<char>>)
    ensures
        match behind_videos(segments) {
            Some(id) => exists|i: int|
                0 <= i && i + 1 < segments.len() && is_first_videos(segments, i) && id == segments[i
                    + 1] && id.len() > 0,
            None => forall|i: int|
                0 <= i < segments.len() && #[trigger] is_first_videos(segments, i) ==> i + 1
                    >= segments.len() || segments[i + 1].len() == 0,
        },
    decreases segments.len(),
{
    if segments.len() > 0 {
        if is_videos(segments[0]) {
            assert(is_first_videos(segments, 0));
            assert forall|i: int|
                0 <= i < segments.len() && #[trigger] is_first_videos(segments, i) implies i == 0 by {
                if i > 0 {
                    assert(text::ascii_lower_all(segments[0]) == text::ascii_lower_all("Videos"@));
                }
            }
        } else {
            let rest = segments.skip(1);
            law_video_stands_behind_videos(rest);
            match behind_videos(rest) {
                Some(id) => {
                    let i = choose|i: int|
                        0 <= i && i + 1 < rest.len() && is_first_videos(rest, i) && id == rest[i
                            + 1] && id.len() > 0;
                    assert(segments[i + 2] == rest[i + 1]);
                    assert(segments[i + 1] == rest[i]);
                    assert forall|j: int| 0 <= j < i + 1 implies text::ascii_lower_all(
                        #[trigger] segments[j],
                    ) != text::ascii_lower_all("Videos"@) by {
                        if j > 0 {
                            assert(rest[j - 1] == segments[j]);
                        }
                    }
                    assert(is_first_videos(segments, i + 1));
                },
                None => {
                    assert forall|i: int|
                        0 <= i < segments.len() && #[trigger] is_first_videos(
                            segments,
                            i,
                        ) implies i + 1 >= segments.len() || segments[i + 1].len() == 0 by {
                        assert(i > 0);
                        assert(segments[i] == rest[i - 1]);
                        assert forall|j: int| 0 <= j < i - 1 implies text::ascii_lower_all(
                            #[trigger] rest[j],
                        ) != text::ascii_lower_all("Videos"@) by {
                            assert(rest[j] == segments[j + 1]);
                        }
                        assert(is_first_videos(rest, i - 1));
                        if i + 1 < segments.len() {
                            assert(segments[i + 1] == rest[i]);
                        }
                    }
                },
            }
        }
    }
}

/// Whether the segment at `i` is the first one that is `Videos` in any case.
pub open spec fn is_first_videos(segments: Seq<Seq<char>>, i: int) -> bool {
    &&& text::ascii_lower_all(segments[i]) == text::ascii_lower_all("Videos"@)
    &&& forall|j: int|
        0 <= j < i ==> text::ascii_lower_all(#[trigger] segments[j]) != text::ascii_lower_all(
            "Videos"@,
        )
}

/// Whether a pair of a query has a name for a playback session, in any case, and a value.
pub open spec fn has_session_name(pair: (Seq<char>, Seq<char>)) -> bool {
    (text::ascii_lower_all(pair.0) == text::ascii_lower_all("PlaySessionId"@)
        || text::ascii_lower_all(pair.0) == text::ascii_lower_all("SessionId"@)) && pair.1.len() > 0
}

/// The playback session that a query names is the value of the first pair with a name for one and
/// a value.
pub proof fn law_first_named_session_counts(pairs: Seq<(Seq<char>, Seq<char>)>)
    ensures
        match named_session(pairs) {
            Some(id) => exists|i: int|
                0 <= i < pairs.len() && has_session_name(#[trigger] pairs[i]) && pairs[i].1 == id
                    && forall|j: int| 0 <= j < i ==> !has_session_name(#[trigger] pairs[j]),
            None => forall|j: int| 0 <= j < pairs.len() ==> !has_session_name(#[trigger] pairs[j]),
        },
    decreases pairs.len(),
{
    if pairs.len() > 0 {
        if has_session_name(pairs[0]) {
            assert(pairs[0].1 == named_session(pairs)->0);
        } else {
            let rest = pairs.skip(1);
            law_first_named_session_counts(rest);
            match named_session(rest) {
                Some(id) => {
                    let i = choose|i: int|
                        0 <= i < rest.len() && has_session_name(#[trigger] rest[i]) && rest[i].1
                            == id && forall|j: int|
                            0 <= j < i ==> !has_session_name(#[trigger] rest[j]);
                    assert(pairs[i + 1] == rest[i]);
                    assert forall|j: int| 0 <= j < i + 1 implies !has_session_name(
                        #[trigger] pairs[j],
                    ) by {
                        if j > 0 {
                            assert(rest[j - 1] == pairs[j]);
                        }
                    }
                },
                None => {
                    assert forall|j: int| 0 <= j < pairs.len() implies !has_session_name(
                        #[trigger] pairs[j],
                    ) by {
                        if j > 0 {
                            assert(rest[j - 1] == pairs[j]);
                        }
                    }
                },
            }
        }
    }
}

/// Of a user's sessions exactly those with the identifier of the user count, in their order; without
/// a user all do.
pub proof fn law_sessions_of_the_user_count(
    candidates: Seq<PlaybackSession>,
    user_id: Option<Seq<char>>,
)
    ensures
        picking::are_picked(
            candidates,
            of_user(candidates, user_id),
            |session: PlaybackSession| user_id is None || session.user_id@ == user_id->0,
        ),
{
    let rule = |session: PlaybackSession| is_of_user(session, user_id);
    let wanted = |session: PlaybackSession| user_id is None || session.user_id@ == user_id->0;
    assert(rule =~= wanted);
    let places = picking::lemma_filter_picks(candidates, rule);
    assert(picking::is_picking(candidates, candidates.filter(rule), wanted, places));
}

/// A video that is asked for without the identifier of a session is played from a session of the
/// user for it exactly where there is one and only one.
pub proof fn law_only_session_is_taken(
    sessions: Seq<session_storage::TrackedPlaybackSession>,
    video: Seq<char>,
    user_id: Option<Seq<char>>,
)
    ensures
        ({
            let found = session_storage::newest_first(
                sessions,
                session_storage::Wanted::Item { item_id: video },
            );
            let matching = of_user(found, user_id);
            &&& matching.len() == 1 ==> wanted_play_session(sessions, video, None, user_id) == Some(
                matching[0],
            )
            &&& matching.len() != 1 ==> wanted_play_session(sessions, video, None, user_id) is None
        }),
{
}

/// A video that is asked for with the identifier of a session is played from that session, whoever
/// asks.
pub proof fn law_named_session_is_taken(
    sessions: Seq<session_storage::TrackedPlaybackSession>,
    video: Seq<char>,
    session_id: Seq<char>,
    user_id: Option<Seq<char>>,
)
    ensures
        wanted_play_session(sessions, video, Some(session_id), user_id) == session_storage::newest(
            sessions,
            session_storage::Wanted::SessionAndItem { session_id, item_id: video },
        ),
{
}

/// Exactly the headers that concern one connection only are taken out.
pub proof fn law_hop_by_hop_headers(name: Seq<char>)
    ensures
        hop_by_hop().contains(name) <==> {
            ||| name == "connection"@
            ||| name == "keep-alive"@
            ||| name == "proxy-authenticate"@
            ||| name == "proxy-authorization"@
            ||| name == "te"@
            ||| name == "trailer"@
            ||| name == "transfer-encoding"@
            ||| name == "upgrade"@
        },
{
}

/// A request for an address without a video leaves all playback sessions; one with a video leaves
/// exactly those that are alive.
pub proof fn law_requests_for_videos_drop_stale_sessions(
    sessions: Seq<session_storage::TrackedPlaybackSession>,
    session_ttl: u128,
    url: url::Url,
    now: u128,
)
    ensures
        video_id(url_path(url)) is None ==> live_sessions(sessions, session_ttl, url, now)
            == sessions,
        video_id(url_path(url)) is Some ==> live_sessions(sessions, session_ttl, url, now)
            == session_storage::alive(sessions, session_ttl, now),
{
}

/// An event that is no outcome of the current step changes nothing.
pub proof fn law_other_events_leave_videos_alone<A>(
    step: VideoStep<A>,
    event: VideoEvent<A>,
    before: Seq<session_storage::TrackedPlaybackSession>,
    session_ttl: u128,
    known: Map<i64, server_storage::ServerHealthStatus>,
    now: u128,
    next: VideoStep<A>,
    after: Seq<session_storage::TrackedPlaybackSession>,
)
    requires
        video_step_follows(step, event, before, session_ttl, known, now, next, after),
        step is Preprocess ==> !(event is Preprocessed),
        step is GetServer ==> !(event is Server),
        step is RemapAuthorization ==> !(event is Remapped),
    ensures
        next == step,
        after == before,
{
}

} // verus!
