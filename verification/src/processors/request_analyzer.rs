//! Finds out from the identifiers in a request which server and which user it concerns.

use crate::picking;
use crate::server_id::ServerId;
use crate::server_storage::{Server, ServerView};
use crate::session_storage::{self, SessionStorage, TrackedPlaybackSession};
use crate::text;
use vstd::prelude::*;

verus! {

/// A local user, told apart by the identifier.
#[derive(Debug)]
pub struct User {
    pub id: String,
}

impl Clone for User {
    fn clone(&self) -> (r: Self)
        ensures
            r == *self,
    {
        User { id: self.id.clone() }
    }
}

/// What an analysis of a request has found.
#[derive(Debug)]
pub struct RequestBodyAnalysisResult {
    pub found_ids: Vec<String>,
    pub found_session_ids: Vec<String>,
    pub found_user_ids: Vec<String>,
    pub servers: Vec<Server>,
    pub users: Vec<User>,
}

/// What a [`RequestBodyAnalysisResult`] holds.
pub struct AnalysisView {
    pub found_ids: Seq<Seq<char>>,
    pub found_session_ids: Seq<Seq<char>>,
    pub found_user_ids: Seq<Seq<char>>,
    pub servers: Seq<Server>,
    pub users: Seq<User>,
}

/// What servers are.
pub open spec fn server_views(servers: Seq<Server>) -> Seq<ServerView> {
    servers.map_values(|server: Server| server@)
}

/// The identifiers of users.
pub open spec fn user_ids(users: Seq<User>) -> Seq<Seq<char>> {
    users.map_values(|user: User| user.id@)
}

impl View for RequestBodyAnalysisResult {
    type V = AnalysisView;

    open spec fn view(&self) -> AnalysisView {
        AnalysisView {
            found_ids: text::string_views(self.found_ids@),
            found_session_ids: text::string_views(self.found_session_ids@),
            found_user_ids: text::string_views(self.found_user_ids@),
            servers: self.servers@,
            users: self.users@,
        }
    }
}

impl Default for RequestBodyAnalysisResult {
    fn default() -> (r: Self)
        ensures
            r.found_ids.len() == 0,
            r.found_session_ids.len() == 0,
            r.found_user_ids.len() == 0,
            r.servers.len() == 0,
            r.users.len() == 0,
    {
        RequestBodyAnalysisResult {
            found_ids: Vec::new(),
            found_session_ids: Vec::new(),
            found_user_ids: Vec::new(),
            servers: Vec::new(),
            users: Vec::new(),
        }
    }
}

/// How often a value occurs.
pub open spec fn occurrences<T>(values: Seq<T>, value: T) -> nat
    decreases values.len(),
{
    if values.len() == 0 {
        0
    } else {
        occurrences(values.drop_last(), value) + if values.last() == value {
            1nat
        } else {
            0nat
        }
    }
}

/// Whether no value occurs more often than the one at `i`.
pub open spec fn is_most_common<T>(values: Seq<T>, i: int) -> bool {
    forall|j: int|
        0 <= j < values.len() ==> occurrences(values, #[trigger] values[j]) <= occurrences(
            values,
            values[i],
        )
}

impl RequestBodyAnalysisResult {
    fn count_server(&self, at: usize) -> (r: usize)
        requires
            at < self.servers.len(),
        ensures
            r == occurrences(server_views(self.servers@), self.servers[at as int]@),
    {
        let ghost views = server_views(self.servers@);
        let mut count: usize = 0;
        let mut i: usize = 0;
        assert(views.take(0) =~= Seq::empty());
        while i < self.servers.len()
            invariant
                i <= self.servers.len(),
                at < self.servers.len(),
                views == server_views(self.servers@),
                count <= i,
                count == occurrences(views.take(i as int), self.servers[at as int]@),
            decreases self.servers.len() - i,
        {
            assert(views.take(i + 1).drop_last() =~= views.take(i as int));
            if self.servers[i].same(&self.servers[at]) {
                count = count + 1;
            }
            i = i + 1;
        }
        assert(views.take(i as int) =~= views);
        count
    }

    fn count_user(&self, at: usize) -> (r: usize)
        requires
            at < self.users.len(),
        ensures
            r == occurrences(user_ids(self.users@), self.users[at as int].id@),
    {
        let ghost views = user_ids(self.users@);
        let mut count: usize = 0;
        let mut i: usize = 0;
        assert(views.take(0) =~= Seq::empty());
        while i < self.users.len()
            invariant
                i <= self.users.len(),
                at < self.users.len(),
                views == user_ids(self.users@),
                count <= i,
                count == occurrences(views.take(i as int), self.users[at as int].id@),
            decreases self.users.len() - i,
        {
            assert(views.take(i + 1).drop_last() =~= views.take(i as int));
            if self.users[i].id == self.users[at].id {
                count = count + 1;
            }
            i = i + 1;
        }
        assert(views.take(i as int) =~= views);
        count
    }

    /// The server that occurs most often; where several do, one of them.
    pub fn get_server(&self) -> (r: Option<Server>)
        ensures
            r is None <==> self.servers.len() == 0,
            r matches Some(server) ==> exists|i: int|
                0 <= i < self.servers.len() && (#[trigger] self.servers[i]) == server
                    && is_most_common(server_views(self.servers@), i),
    {
        if self.servers.len() == 0 {
            return None;
        }
        let ghost views = server_views(self.servers@);
        let mut best: usize = 0;
        let mut best_count: usize = self.count_server(0);
        let mut i: usize = 1;
        while i < self.servers.len()
            invariant
                1 <= i <= self.servers.len(),
                best < i,
                views == server_views(self.servers@),
                best_count == occurrences(views, views[best as int]),
                forall|j: int|
                    0 <= j < i ==> occurrences(views, #[trigger] views[j]) <= best_count,
            decreases self.servers.len() - i,
        {
            let count = self.count_server(i);
            if count > best_count {
                best = i;
                best_count = count;
            }
            i = i + 1;
        }
        assert(is_most_common(views, best as int));
        assert(self.servers[best as int] == self.servers@[best as int]);
        Some(self.servers[best].clone())
    }

    /// The user that occurs most often; where several do, one of them.
    pub fn get_user(&self) -> (r: Option<User>)
        ensures
            r is None <==> self.users.len() == 0,
            r matches Some(user) ==> exists|i: int|
                0 <= i < self.users.len() && (#[trigger] self.users[i]) == user && is_most_common(
                    user_ids(self.users@),
                    i,
                ),
    {
        if self.users.len() == 0 {
            return None;
        }
        let ghost views = user_ids(self.users@);
        let mut best: usize = 0;
        let mut best_count: usize = self.count_user(0);
        let mut i: usize = 1;
        while i < self.users.len()
            invariant
                1 <= i <= self.users.len(),
                best < i,
                views == user_ids(self.users@),
                best_count == occurrences(views, views[best as int]),
                forall|j: int|
                    0 <= j < i ==> occurrences(views, #[trigger] views[j]) <= best_count,
            decreases self.users.len() - i,
        {
            let count = self.count_user(i);
            if count > best_count {
                best = i;
                best_count = count;
            }
            i = i + 1;
        }
        assert(is_most_common(views, best as int));
        assert(self.users[best as int] == self.users@[best as int]);
        Some(self.users[best].clone())
    }
}

/// What a request is analyzed for; there is nothing to say of it.
pub struct RequestAnalysisContext;

/// The kinds of fields that the key of a field belongs to.
#[derive(Debug, Clone, Copy, PartialEq, Eq, Structural)]
pub struct FieldKinds {
    pub id: bool,
    pub session: bool,
    pub user: bool,
}

/// What has to be looked up next for a field.
pub enum AnalysisStep<E> {
    /// The server of the item that the text stands for.
    FindMapping,
    /// The server of the playback session that the text names.
    GetServer { server_id: ServerId },
    /// The user that the text names.
    GetUser,
    /// Nothing.
    Done,
    /// Nothing, as a lookup failed.
    Fail(E),
}

/// What came of a lookup.
pub enum AnalysisEvent<E> {
    Mapping(Result<Option<Server>, E>),
    Server(Result<Option<Server>, E>),
    User(Result<Option<User>, E>),
}

/// The state of an analysis.
pub struct AnalysisState<E> {
    pub found: AnalysisView,
    pub sessions: Seq<TrackedPlaybackSession>,
    pub step: AnalysisStep<E>,
}

/// Once what belongs to playback sessions is done, the user is looked up.
pub open spec fn at_user<E>(
    found: AnalysisView,
    sessions: Seq<TrackedPlaybackSession>,
    kinds: FieldKinds,
) -> AnalysisState<E> {
    AnalysisState {
        found,
        sessions,
        step: if kinds.user {
            AnalysisStep::GetUser
        } else {
            AnalysisStep::Done
        },
    }
}

/// What was found, with the identifier of a session.
pub open spec fn with_session_id(found: AnalysisView, text: Seq<char>) -> AnalysisView {
    AnalysisView { found_session_ids: found.found_session_ids.push(text), ..found }
}

/// What was found, with a server if there is one.
pub open spec fn with_server(found: AnalysisView, server: Option<Server>) -> AnalysisView {
    match server {
        Some(server) => AnalysisView { servers: found.servers.push(server), ..found },
        None => found,
    }
}

/// Once what belongs to items is done, the playback session is looked up, and then its server.
pub open spec fn at_session<E>(
    found: AnalysisView,
    sessions: Seq<TrackedPlaybackSession>,
    session_ttl: u128,
    now: u128,
    kinds: FieldKinds,
    text: Seq<char>,
) -> AnalysisState<E> {
    if kinds.session {
        let alive = session_storage::alive(sessions, session_ttl, now);
        match session_storage::newest(
            alive,
            session_storage::Wanted::Session { session_id: text },
        ) {
            Some(session) => AnalysisState {
                found,
                sessions: alive,
                step: AnalysisStep::GetServer { server_id: session.server_id },
            },
            None => at_user(with_session_id(found, text), alive, kinds),
        }
    } else {
        at_user(found, sessions, kinds)
    }
}

/// The state in which the analysis of a field begins. Only texts are looked at.
pub open spec fn begun<E>(
    found: AnalysisView,
    sessions: Seq<TrackedPlaybackSession>,
    session_ttl: u128,
    now: u128,
    kinds: FieldKinds,
    text: Option<Seq<char>>,
) -> AnalysisState<E> {
    match text {
        None => AnalysisState { found, sessions, step: AnalysisStep::Done },
        Some(text) => if kinds.id {
            AnalysisState { found, sessions, step: AnalysisStep::FindMapping }
        } else {
            at_session(found, sessions, session_ttl, now, kinds, text)
        },
    }
}

/// The state after a lookup. What was found before a lookup that failed stays.
pub open spec fn advanced<E>(
    state: AnalysisState<E>,
    event: AnalysisEvent<E>,
    session_ttl: u128,
    now: u128,
    kinds: FieldKinds,
    text: Seq<char>,
) -> AnalysisState<E> {
    match (state.step, event) {
        (AnalysisStep::FindMapping, AnalysisEvent::Mapping(Ok(server))) => {
            let found = with_server(state.found, server);
            at_session(
                AnalysisView { found_ids: found.found_ids.push(text), ..found },
                state.sessions,
                session_ttl,
                now,
                kinds,
                text,
            )
        },
        (AnalysisStep::FindMapping, AnalysisEvent::Mapping(Err(error))) => AnalysisState {
            step: AnalysisStep::Fail(error),
            ..state
        },
        (AnalysisStep::GetServer { server_id }, AnalysisEvent::Server(Ok(server))) => at_user(
            with_session_id(with_server(state.found, server), text),
            if server is Some {
                state.sessions
            } else {
                session_storage::kept(
                    state.sessions,
                    session_storage::Keep::OtherServers { server_id },
                )
            },
            kinds,
        ),
        (AnalysisStep::GetServer { .. }, AnalysisEvent::Server(Err(error))) => AnalysisState {
            step: AnalysisStep::Fail(error),
            ..state
        },
        (AnalysisStep::GetUser, AnalysisEvent::User(Ok(user))) => {
            let found = match user {
                Some(user) => AnalysisView { users: state.found.users.push(user), ..state.found },
                None => state.found,
            };
            AnalysisState {
                found: AnalysisView {
                    found_user_ids: found.found_user_ids.push(text),
                    ..found
                },
                sessions: state.sessions,
                step: AnalysisStep::Done,
            }
        },
        (AnalysisStep::GetUser, AnalysisEvent::User(Err(error))) => AnalysisState {
            step: AnalysisStep::Fail(error),
            ..state
        },
        _ => state,
    }
}

/// Analyzes requests, with what it needs for lookups.
pub struct RequestAnalyzer<D> {
    pub data_context: D,
}

fn push_text(texts: &mut Vec<String>, text: &str)
    ensures
        text::string_views(final(texts)@) == text::string_views(old(texts)@).push(text@),
{
    texts.push(text.to_owned());
    assert(text::string_views(texts@) =~= text::string_views(old(texts)@).push(text@));
}

fn go_to_user<E>(kinds: FieldKinds) -> (r: AnalysisStep<E>)
    ensures
        forall|found: AnalysisView, sessions: Seq<TrackedPlaybackSession>|
            r == (#[trigger] at_user::<E>(found, sessions, kinds)).step,
{
    if kinds.user {
        AnalysisStep::GetUser
    } else {
        AnalysisStep::Done
    }
}

fn go_to_session<E>(
    kinds: FieldKinds,
    text: &str,
    found: &mut RequestBodyAnalysisResult,
    play_sessions: &mut SessionStorage,
    now: u128,
) -> (r: AnalysisStep<E>)
    ensures
        (AnalysisState { found: final(found)@, sessions: final(play_sessions)@, step: r })
            == at_session::<E>(
            old(found)@,
            old(play_sessions)@,
            old(play_sessions).ttl(),
            now,
            kinds,
            text@,
        ),
        final(play_sessions).ttl() == old(play_sessions).ttl(),
        old(play_sessions).well_formed() ==> final(play_sessions).well_formed(),
{
    if kinds.session {
        match play_sessions.get_session(text, now) {
            Some(session) => AnalysisStep::GetServer { server_id: session.server_id },
            None => {
                push_text(&mut found.found_session_ids, text);
                go_to_user(kinds)
            },
        }
    } else {
        go_to_user(kinds)
    }
}

impl<D> RequestAnalyzer<D> {
    pub fn new(data_context: D) -> (r: Self)
        ensures
            r.data_context == data_context,
    {
        RequestAnalyzer { data_context }
    }

    /// Begins to analyze a field whose key belongs to some kinds; the value is given if it is a
    /// text.
    pub fn begin<E>(
        &self,
        kinds: FieldKinds,
        text: Option<&str>,
        found: &mut RequestBodyAnalysisResult,
        play_sessions: &mut SessionStorage,
        now: u128,
    ) -> (r: AnalysisStep<E>)
        ensures
            (AnalysisState { found: final(found)@, sessions: final(play_sessions)@, step: r })
                == begun::<E>(
                old(found)@,
                old(play_sessions)@,
                old(play_sessions).ttl(),
                now,
                kinds,
                match text {
                    Some(text) => Some(text@),
                    None => None,
                },
            ),
            final(play_sessions).ttl() == old(play_sessions).ttl(),
            old(play_sessions).well_formed() ==> final(play_sessions).well_formed(),
    {
        match text {
            None => AnalysisStep::Done,
            Some(text) => if kinds.id {
                AnalysisStep::FindMapping
            } else {
                go_to_session(kinds, text, found, play_sessions, now)
            },
        }
    }

    /// Goes on with the analysis of a field. Where the server of a playback session is gone, so
    /// are the sessions on it.
    pub fn analyze<E>(
        &self,
        step: AnalysisStep<E>,
        event: AnalysisEvent<E>,
        kinds: FieldKinds,
        text: &str,
        found: &mut RequestBodyAnalysisResult,
        play_sessions: &mut SessionStorage,
        now: u128,
    ) -> (r: AnalysisStep<E>)
        ensures
            (AnalysisState { found: final(found)@, sessions: final(play_sessions)@, step: r })
                == advanced(
                AnalysisState { found: old(found)@, sessions: old(play_sessions)@, step },
                event,
                old(play_sessions).ttl(),
                now,
                kinds,
                text@,
            ),
            final(play_sessions).ttl() == old(play_sessions).ttl(),
            old(play_sessions).well_formed() ==> final(play_sessions).well_formed(),
    {
        match (step, event) {
            (AnalysisStep::FindMapping, AnalysisEvent::Mapping(Ok(server))) => {
                if let Some(server) = server {
                    found.servers.push(server);
                }
                push_text(&mut found.found_ids, text);
                go_to_session(kinds, text, found, play_sessions, now)
            },
            (AnalysisStep::FindMapping, AnalysisEvent::Mapping(Err(error))) => AnalysisStep::Fail(
                error,
            ),
            (AnalysisStep::GetServer { server_id }, AnalysisEvent::Server(Ok(server))) => {
                match server {
                    Some(server) => {
                        found.servers.push(server);
                    },
                    None => {
                        play_sessions.remove_sessions_for_server(server_id);
                    },
                }
                push_text(&mut found.found_session_ids, text);
                go_to_user(kinds)
            },
            (AnalysisStep::GetServer { .. }, AnalysisEvent::Server(Err(error))) => {
                AnalysisStep::Fail(error)
            },
            (AnalysisStep::GetUser, AnalysisEvent::User(Ok(user))) => {
                if let Some(user) = user {
                    found.users.push(user);
                }
                push_text(&mut found.found_user_ids, text);
                AnalysisStep::Done
            },
            (AnalysisStep::GetUser, AnalysisEvent::User(Err(error))) => AnalysisStep::Fail(error),
            (step, _) => step,
        }
    }
}

/// An analysis only ever adds to what was found.
pub proof fn law_analysis_only_adds<E>(
    state: AnalysisState<E>,
    event: AnalysisEvent<E>,
    session_ttl: u128,
    now: u128,
    kinds: FieldKinds,
    text: Seq<char>,
)
    ensures
        ({
            let after = advanced(state, event, session_ttl, now, kinds, text).found;
            &&& state.found.found_ids.is_prefix_of(after.found_ids)
            &&& state.found.found_session_ids.is_prefix_of(after.found_session_ids)
            &&& state.found.found_user_ids.is_prefix_of(after.found_user_ids)
            &&& state.found.servers.is_prefix_of(after.servers)
            &&& state.found.users.is_prefix_of(after.users)
        }),
{
}

/// A value that makes up more than half of all occurs most often, and it alone does.
pub proof fn law_majority_wins<T>(values: Seq<T>, i: int, j: int)
    requires
        0 <= i < values.len(),
        0 <= j < values.len(),
        2 * occurrences(values, values[j]) > values.len(),
        is_most_common(values, i),
    ensures
        values[i] == values[j],
{
    if values[i] != values[j] {
        lemma_two_values(values, values[i], values[j]);
        assert(occurrences(values, values[j]) <= occurrences(values, values[i]));
    }
}

proof fn lemma_two_values<T>(values: Seq<T>, a: T, b: T)
    requires
        a != b,
    ensures
        occurrences(values, a) + occurrences(values, b) <= values.len(),
    decreases values.len(),
{
    if values.len() > 0 {
        lemma_two_values(values.drop_last(), a, b);
    }
}

/// Once the server of a playback session was looked up, it stands behind the servers found before,
/// whatever other kinds the field belongs to, and the identifier behind those of sessions; nothing
/// else is found. Where the server is gone, none is found, and exactly the sessions on it leave.
pub proof fn law_server_of_the_session_is_found<E>(
    state: AnalysisState<E>,
    server_id: ServerId,
    server: Option<Server>,
    session_ttl: u128,
    now: u128,
    kinds: FieldKinds,
    text: Seq<char>,
)
    requires
        state.step == (AnalysisStep::<E>::GetServer { server_id }),
    ensures
        ({
            let after = advanced(
                state,
                AnalysisEvent::Server(Ok(server)),
                session_ttl,
                now,
                kinds,
                text,
            );
            &&& server matches Some(server) ==> after.found.servers == state.found.servers.push(
                server,
            ) && after.sessions == state.sessions
            &&& server is None ==> after.found.servers == state.found.servers
                && picking::are_picked(
                state.sessions,
                after.sessions,
                |entry: TrackedPlaybackSession| entry.session.server_id != server_id,
            )
            &&& after.found.found_session_ids == state.found.found_session_ids.push(text)
            &&& after.found.found_ids == state.found.found_ids
            &&& after.found.found_user_ids == state.found.found_user_ids
            &&& after.found.users == state.found.users
            &&& kinds.user ==> after.step is GetUser
            &&& !kinds.user ==> after.step is Done
        }),
{
    let keep = session_storage::Keep::OtherServers { server_id };
    let keeps = |entry: TrackedPlaybackSession| keep.keeps(entry);
    let wanted = |entry: TrackedPlaybackSession| entry.session.server_id != server_id;
    assert(keeps =~= wanted);
    let places = picking::lemma_filter_picks(state.sessions, keeps);
    assert(picking::is_picking(state.sessions, state.sessions.filter(keeps), wanted, places));
}

/// Once the item that a text stands for was looked up, its server stands behind the servers found
/// before, whatever other kinds the field belongs to, and the text behind the identifiers of items;
/// no user is found.
pub proof fn law_server_of_the_item_is_found<E>(
    state: AnalysisState<E>,
    server: Option<Server>,
    session_ttl: u128,
    now: u128,
    kinds: FieldKinds,
    text: Seq<char>,
)
    requires
        state.step is FindMapping,
    ensures
        ({
            let after = advanced(
                state,
                AnalysisEvent::Mapping(Ok(server)),
                session_ttl,
                now,
                kinds,
                text,
            );
            &&& server matches Some(server) ==> after.found.servers == state.found.servers.push(
                server,
            )
            &&& server is None ==> after.found.servers == state.found.servers
            &&& after.found.found_ids == state.found.found_ids.push(text)
            &&& after.found.found_user_ids == state.found.found_user_ids
            &&& after.found.users == state.found.users
            &&& !kinds.session ==> after.found.found_session_ids == state.found.found_session_ids
                && after.sessions == state.sessions
        }),
{
}

/// Once the user that a text names was looked up, the user stands behind the users found before, and
/// the text behind the identifiers of users; nothing else is found, and the analysis is done.
pub proof fn law_user_is_found<E>(
    state: AnalysisState<E>,
    user: Option<User>,
    session_ttl: u128,
    now: u128,
    kinds: FieldKinds,
    text: Seq<char>,
)
    requires
        state.step is GetUser,
    ensures
        ({
            let after = advanced(
                state,
                AnalysisEvent::User(Ok(user)),
                session_ttl,
                now,
                kinds,
                text,
            );
            &&& user matches Some(user) ==> after.found.users == state.found.users.push(user)
            &&& user is None ==> after.found.users == state.found.users
            &&& after.found.found_user_ids == state.found.found_user_ids.push(text)
            &&& after.found.found_ids == state.found.found_ids
            &&& after.found.found_session_ids == state.found.found_session_ids
            &&& after.found.servers == state.found.servers
            &&& after.sessions == state.sessions
            &&& after.step is Done
        }),
{
}

/// What is looked up of a text: the item if the field is one of items, then the playback session if
/// it is one of sessions, then the user if it is one of users. A live session leads to its own
/// server, and to none if there is no live session with the identifier. What is no text is looked
/// up as nothing.
pub proof fn law_fields_are_looked_up_by_their_kinds<E>(
    found: AnalysisView,
    sessions: Seq<TrackedPlaybackSession>,
    session_ttl: u128,
    now: u128,
    kinds: FieldKinds,
    text: Seq<char>,
    server: Option<Server>,
)
    ensures
        ({
            let first = begun::<E>(found, sessions, session_ttl, now, kinds, Some(text));
            let at_session = if kinds.id {
                advanced(
                    first,
                    AnalysisEvent::Mapping(Ok(server)),
                    session_ttl,
                    now,
                    kinds,
                    text,
                )
            } else {
                first
            };
            let alive = session_storage::alive(sessions, session_ttl, now);
            let live = session_storage::newest(
                alive,
                session_storage::Wanted::Session { session_id: text },
            );
            &&& begun::<E>(found, sessions, session_ttl, now, kinds, None) == (AnalysisState::<E> {
                found,
                sessions,
                step: AnalysisStep::Done,
            })
            &&& kinds.id ==> first == (AnalysisState::<E> {
                found,
                sessions,
                step: AnalysisStep::FindMapping,
            })
            &&& kinds.session ==> at_session.sessions == alive
            &&& kinds.session ==> (live matches Some(session) ==> at_session.step == (
            AnalysisStep::<E>::GetServer { server_id: session.server_id }))
            &&& !kinds.session ==> at_session.sessions == sessions
            &&& !kinds.session || live is None ==> {
                &&& kinds.user ==> at_session.step is GetUser
                &&& !kinds.user ==> at_session.step is Done
            }
            &&& kinds.session && live is None ==> at_session.found.found_session_ids
                == found.found_session_ids.push(text)
            &&& kinds.session && live is Some || !kinds.session
                ==> at_session.found.found_session_ids == found.found_session_ids
            &&& at_session.found.users == found.users
            &&& at_session.found.found_user_ids == found.found_user_ids
            &&& !kinds.id ==> at_session.found.servers == found.servers
                && at_session.found.found_ids == found.found_ids
        }),
{
}

/// A lookup that fails ends the analysis with its error and leaves what was found and the playback
/// sessions; an event that is no outcome of the current step changes nothing.
pub proof fn law_failed_lookups_end_the_analysis<E>(
    state: AnalysisState<E>,
    event: AnalysisEvent<E>,
    session_ttl: u128,
    now: u128,
    kinds: FieldKinds,
    text: Seq<char>,
)
    ensures
        ({
            let after = advanced(state, event, session_ttl, now, kinds, text);
            let error = match (state.step, event) {
                (AnalysisStep::FindMapping, AnalysisEvent::Mapping(Err(error))) => Some(error),
                (AnalysisStep::GetServer { .. }, AnalysisEvent::Server(Err(error))) => Some(error),
                (AnalysisStep::GetUser, AnalysisEvent::User(Err(error))) => Some(error),
                _ => None,
            };
            let is_outcome = (state.step is FindMapping && event is Mapping) || (state.step
                is GetServer && event is Server) || (state.step is GetUser && event is User);
            &&& error matches Some(error) ==> after.step == AnalysisStep::Fail(error)
            &&& error is Some ==> after.found == state.found && after.sessions == state.sessions
            &&& !is_outcome ==> after == state
            &&& after.step is Fail ==> error is Some || state.step is Fail
        }),
{
}

/// A value occurs as often as it does in the bag of all values.
pub proof fn law_occurrences_are_counted<T>(values: Seq<T>, value: T)
    ensures
        occurrences(values, value) == values.to_multiset().count(value),
    decreases values.len(),
{
    broadcast use vstd::seq_lib::group_to_multiset_ensures;

    if values.len() > 0 {
        law_occurrences_are_counted(values.drop_last(), value);
        assert(values.drop_last().push(values.last()) =~= values);
    }
}

} // verus!
