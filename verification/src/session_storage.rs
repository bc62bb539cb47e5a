//! Playback sessions that clients have open, kept until they expire.
//!
//! Times are nanoseconds of a clock that the caller reads.

use crate::picking;
use crate::server_id::ServerId;
use crate::text;
use vstd::prelude::*;

verus! {

/// How long a session lives after it was last added: twelve hours.
pub const PLAYBACK_SESSION_TTL: u128 = 43_200_000_000_000;

/// A media item that a user plays from an upstream server.
pub struct PlaybackSession {
    /// Unique identifier of the session.
    pub session_id: String,
    /// The media item that is played.
    pub item_id: String,
    pub user_id: String,
    pub server_id: ServerId,
}

impl Clone for PlaybackSession {
    fn clone(&self) -> (r: Self)
        ensures
            r == *self,
    {
        PlaybackSession {
            session_id: self.session_id.clone(),
            item_id: self.item_id.clone(),
            user_id: self.user_id.clone(),
            server_id: self.server_id,
        }
    }
}

/// A session with the time at which it was last added.
pub struct TrackedPlaybackSession {
    pub session: PlaybackSession,
    pub updated_at: u128,
}

/// Whether a session that was last added at `updated_at` is alive at `now`.
pub open spec fn is_fresh(updated_at: u128, session_ttl: u128, now: u128) -> bool {
    now <= updated_at + session_ttl
}

/// What the entries that stay have in common.
pub enum Keep<'a> {
    Fresh { session_ttl: u128, now: u128 },
    OtherSessions { session_id: &'a str },
    OtherServers { server_id: ServerId },
}

impl<'a> Keep<'a> {
    pub open spec fn keeps(self, entry: TrackedPlaybackSession) -> bool {
        match self {
            Keep::Fresh { session_ttl, now } => is_fresh(entry.updated_at, session_ttl, now),
            Keep::OtherSessions { session_id } => entry.session.session_id@ != session_id@,
            Keep::OtherServers { server_id } => entry.session.server_id != server_id,
        }
    }

    fn test(&self, entry: &TrackedPlaybackSession) -> (r: bool)
        ensures
            r == self.keeps(*entry),
    {
        match self {
            Keep::Fresh { session_ttl, now } => {
                // A time of last use that lies ahead counts as no age at all.
                *now <= entry.updated_at || *now - entry.updated_at <= *session_ttl
            },
            Keep::OtherSessions { session_id } => !text::str_eq(
                entry.session.session_id.as_str(),
                session_id,
            ),
            Keep::OtherServers { server_id } => entry.session.server_id != *server_id,
        }
    }
}

/// The entries that a rule keeps, in their order.
pub open spec fn kept(s: Seq<TrackedPlaybackSession>, keep: Keep) -> Seq<TrackedPlaybackSession> {
    s.filter(|entry: TrackedPlaybackSession| keep.keeps(entry))
}

/// The entries that are alive at `now`.
pub open spec fn alive(
    s: Seq<TrackedPlaybackSession>,
    session_ttl: u128,
    now: u128,
) -> Seq<TrackedPlaybackSession> {
    kept(s, Keep::Fresh { session_ttl, now })
}

/// Whether a session has the given identifier and plays the given item.
pub open spec fn is_pair(session: PlaybackSession, session_id: Seq<char>, item_id: Seq<char>) -> bool {
    session.session_id@ == session_id && session.item_id@ == item_id
}

/// No two entries share both session and item.
pub open spec fn unique_pairs(s: Seq<TrackedPlaybackSession>) -> bool {
    forall|i: int, j: int|
        0 <= i < j < s.len() ==> !is_pair(
            #[trigger] s[i].session,
            (#[trigger] s[j]).session.session_id@,
            s[j].session.item_id@,
        )
}

/// The first entry for a session and item; the number of entries if there is none.
pub open spec fn first_pair(
    s: Seq<TrackedPlaybackSession>,
    session_id: Seq<char>,
    item_id: Seq<char>,
) -> int
    decreases s.len(),
{
    if s.len() == 0 || is_pair(s.first().session, session_id, item_id) {
        0
    } else {
        1 + first_pair(s.drop_first(), session_id, item_id)
    }
}

/// The entries after a session is added to those that are alive: an earlier entry for the same
/// session and item gives way to the new one at the end.
pub open spec fn upserted(
    s: Seq<TrackedPlaybackSession>,
    session: PlaybackSession,
    now: u128,
) -> Seq<TrackedPlaybackSession> {
    let i = first_pair(s, session.session_id@, session.item_id@);
    let others = if i < s.len() {
        s.remove(i)
    } else {
        s
    };
    others.push(TrackedPlaybackSession { session, updated_at: now })
}

/// What a lookup asks for.
pub enum Wanted {
    Session { session_id: Seq<char> },
    SessionAndItem { session_id: Seq<char>, item_id: Seq<char> },
    Item { item_id: Seq<char> },
}

impl Wanted {
    pub open spec fn wants(self, session: PlaybackSession) -> bool {
        match self {
            Wanted::Session { session_id } => session.session_id@ == session_id,
            Wanted::SessionAndItem { session_id, item_id } => is_pair(session, session_id, item_id),
            Wanted::Item { item_id } => session.item_id@ == item_id,
        }
    }
}

/// A lookup.
enum Lookup<'a> {
    Session { session_id: &'a str },
    SessionAndItem { session_id: &'a str, item_id: &'a str },
    Item { item_id: &'a str },
}

impl<'a> View for Lookup<'a> {
    type V = Wanted;

    closed spec fn view(&self) -> Wanted {
        match self {
            Lookup::Session { session_id } => Wanted::Session { session_id: session_id@ },
            Lookup::SessionAndItem { session_id, item_id } => Wanted::SessionAndItem {
                session_id: session_id@,
                item_id: item_id@,
            },
            Lookup::Item { item_id } => Wanted::Item { item_id: item_id@ },
        }
    }
}

impl<'a> Lookup<'a> {
    fn test(&self, session: &PlaybackSession) -> (r: bool)
        ensures
            r == self@.wants(*session),
    {
        match self {
            Lookup::Session { session_id } => text::str_eq(session.session_id.as_str(), session_id),
            Lookup::SessionAndItem { session_id, item_id } => text::str_eq(
                session.session_id.as_str(),
                session_id,
            ) && text::str_eq(session.item_id.as_str(), item_id),
            Lookup::Item { item_id } => text::str_eq(session.item_id.as_str(), item_id),
        }
    }
}

/// The wanted sessions, those added last first.
pub open spec fn newest_first(s: Seq<TrackedPlaybackSession>, wanted: Wanted) -> Seq<PlaybackSession>
    decreases s.len(),
{
    if s.len() == 0 {
        Seq::empty()
    } else if wanted.wants(s.last().session) {
        seq![s.last().session] + newest_first(s.drop_last(), wanted)
    } else {
        newest_first(s.drop_last(), wanted)
    }
}

/// The wanted session that was added last.
pub open spec fn newest(s: Seq<TrackedPlaybackSession>, wanted: Wanted) -> Option<PlaybackSession> {
    let found = newest_first(s, wanted);
    if found.len() > 0 {
        Some(found[0])
    } else {
        None
    }
}

/// The open playback sessions.
pub struct SessionStorage {
    sessions: Vec<TrackedPlaybackSession>,
    session_ttl: u128,
}

impl View for SessionStorage {
    type V = Seq<TrackedPlaybackSession>;

    closed spec fn view(&self) -> Seq<TrackedPlaybackSession> {
        self.sessions@
    }
}

impl Default for SessionStorage {
    fn default() -> (r: Self)
        ensures
            r@.len() == 0,
            r.ttl() == PLAYBACK_SESSION_TTL,
            r.well_formed(),
    {
        Self::new()
    }
}

impl SessionStorage {
    /// How long a session lives after it was last added.
    pub closed spec fn ttl(&self) -> u128 {
        self.session_ttl
    }

    pub open spec fn well_formed(&self) -> bool {
        unique_pairs(self@)
    }

    pub fn new() -> (r: Self)
        ensures
            r@.len() == 0,
            r.ttl() == PLAYBACK_SESSION_TTL,
            r.well_formed(),
    {
        Self::with_session_ttl(PLAYBACK_SESSION_TTL)
    }

    pub fn with_session_ttl(session_ttl: u128) -> (r: Self)
        ensures
            r@.len() == 0,
            r.ttl() == session_ttl,
            r.well_formed(),
    {
        SessionStorage { sessions: Vec::new(), session_ttl }
    }

    fn retain(&mut self, keep: &Keep)
        ensures
            final(self)@ == kept(old(self)@, *keep),
            final(self).ttl() == old(self).ttl(),
            old(self).well_formed() ==> final(self).well_formed(),
    {
        let ghost all = self.sessions@;
        let ghost rule = |entry: TrackedPlaybackSession| keep.keeps(entry);
        let mut i: usize = 0;
        let ghost mut seen: int = 0;
        let ttl = self.session_ttl;
        proof {
            assert(all.take(0).filter(rule) =~= Seq::empty()) by {
                reveal(Seq::filter);
            }
            assert(all.skip(0) =~= all);
            assert(self.sessions@ =~= all.take(0).filter(rule) + all.skip(0));
        }
        while i < self.sessions.len()
            invariant
                0 <= seen <= all.len(),
                rule == (|entry: TrackedPlaybackSession| keep.keeps(entry)),
                i == all.take(seen).filter(rule).len(),
                self.sessions@ == all.take(seen).filter(rule) + all.skip(seen),
                self.session_ttl == ttl,
            decreases all.len() - seen,
        {
            assert(self.sessions@[i as int] == all[seen]);
            proof {
                let next = all.take(seen + 1);
                assert(next.drop_last() =~= all.take(seen));
                assert(next.last() == all[seen]);
                reveal(Seq::filter);
                assert(all.skip(seen).skip(1) =~= all.skip(seen + 1));
            }
            if keep.test(&self.sessions[i]) {
                assert(self.sessions@ =~= all.take(seen + 1).filter(rule) + all.skip(seen + 1));
                i = i + 1;
            } else {
                self.sessions.remove(i);
                assert(self.sessions@ =~= all.take(seen + 1).filter(rule) + all.skip(seen + 1));
            }
            proof {
                seen = seen + 1;
            }
        }
        proof {
            assert(seen == all.len());
            assert(all.take(seen) =~= all);
            assert(self.sessions@ =~= all.filter(rule));
            if unique_pairs(all) {
                lemma_kept_unique(all, *keep);
            }
        }
    }

    /// Drops the sessions that are no longer alive.
    pub fn prune_stale_sessions(&mut self, now: u128)
        ensures
            final(self)@ == alive(old(self)@, old(self).ttl(), now),
            final(self).ttl() == old(self).ttl(),
            old(self).well_formed() ==> final(self).well_formed(),
    {
        self.retain(&Keep::Fresh { session_ttl: self.session_ttl, now });
    }

    /// Adds a session, in place of an earlier one with the same session and item.
    pub fn add_session(&mut self, session: PlaybackSession, now: u128)
        ensures
            final(self)@ == upserted(alive(old(self)@, old(self).ttl(), now), session, now),
            final(self).ttl() == old(self).ttl(),
            old(self).well_formed() ==> final(self).well_formed(),
    {
        self.prune_stale_sessions(now);
        let ghost before = self.sessions@;
        let ttl = self.session_ttl;
        let wanted = Lookup::SessionAndItem {
            session_id: session.session_id.as_str(),
            item_id: session.item_id.as_str(),
        };
        let mut i: usize = 0;
        while i < self.sessions.len() && !wanted.test(&self.sessions[i].session)
            invariant
                i <= self.sessions.len(),
                self.sessions@ == before,
                self.session_ttl == ttl,
                forall|s: PlaybackSession| #[trigger] wanted@.wants(s) == is_pair(s, session.session_id@, session.item_id@),
                forall|j: int| 0 <= j < i ==> !is_pair(#[trigger] before[j].session, session.session_id@, session.item_id@),
            decreases self.sessions.len() - i,
        {
            i = i + 1;
        }
        proof {
            lemma_first_pair(before, session.session_id@, session.item_id@, i as int);
            if unique_pairs(before) {
                lemma_upserted_unique(before, session, now);
            }
        }
        if i < self.sessions.len() {
            self.sessions.remove(i);
        }
        self.sessions.push(TrackedPlaybackSession { session, updated_at: now });
    }

    fn find(&self, wanted: &Lookup) -> (r: Option<PlaybackSession>)
        ensures
            r == newest(self@, wanted@),
    {
        let mut i: usize = self.sessions.len();
        assert(self.sessions@.take(i as int) =~= self.sessions@);
        while i > 0
            invariant
                i <= self.sessions.len(),
                newest_first(self.sessions@.take(i as int), wanted@) == newest_first(
                    self.sessions@,
                    wanted@,
                ),
            decreases i,
        {
            assert(self.sessions@.take(i as int).drop_last() =~= self.sessions@.take(i - 1));
            if wanted.test(&self.sessions[i - 1].session) {
                return Some(self.sessions[i - 1].session.clone());
            }
            i = i - 1;
        }
        None
    }

    /// The session with an identifier that was added last, if it is alive.
    pub fn get_session(&mut self, session_id: &str, now: u128) -> (r: Option<PlaybackSession>)
        ensures
            final(self)@ == alive(old(self)@, old(self).ttl(), now),
            final(self).ttl() == old(self).ttl(),
            old(self).well_formed() ==> final(self).well_formed(),
            r == newest(final(self)@, Wanted::Session { session_id: session_id@ }),
    {
        self.prune_stale_sessions(now);
        self.find(&Lookup::Session { session_id })
    }

    /// The session with an identifier that plays an item, if it is alive.
    pub fn get_session_by_session_and_item_id(
        &mut self,
        session_id: &str,
        item_id: &str,
        now: u128,
    ) -> (r: Option<PlaybackSession>)
        ensures
            final(self)@ == alive(old(self)@, old(self).ttl(), now),
            final(self).ttl() == old(self).ttl(),
            old(self).well_formed() ==> final(self).well_formed(),
            r == newest(
                final(self)@,
                Wanted::SessionAndItem { session_id: session_id@, item_id: item_id@ },
            ),
    {
        self.prune_stale_sessions(now);
        self.find(&Lookup::SessionAndItem { session_id, item_id })
    }

    /// The live sessions that play an item, those added last first.
    pub fn get_sessions_by_item_id(&mut self, item_id: &str, now: u128) -> (r: Vec<PlaybackSession>)
        ensures
            final(self)@ == alive(old(self)@, old(self).ttl(), now),
            final(self).ttl() == old(self).ttl(),
            old(self).well_formed() ==> final(self).well_formed(),
            r@ == newest_first(final(self)@, Wanted::Item { item_id: item_id@ }),
    {
        self.prune_stale_sessions(now);
        let wanted = Lookup::Item { item_id };
        let mut found: Vec<PlaybackSession> = Vec::new();
        let mut i: usize = self.sessions.len();
        assert(self.sessions@.take(i as int) =~= self.sessions@);
        assert(found@ + newest_first(self.sessions@, wanted@) =~= newest_first(self.sessions@, wanted@));
        while i > 0
            invariant
                i <= self.sessions.len(),
                found@ + newest_first(self.sessions@.take(i as int), wanted@) == newest_first(
                    self.sessions@,
                    wanted@,
                ),
            decreases i,
        {
            let ghost rest = newest_first(self.sessions@.take(i - 1), wanted@);
            let ghost so_far = found@;
            assert(self.sessions@.take(i as int).drop_last() =~= self.sessions@.take(i - 1));
            if wanted.test(&self.sessions[i - 1].session) {
                found.push(self.sessions[i - 1].session.clone());
                assert(found@ + rest =~= so_far + (seq![self.sessions@[i - 1].session] + rest));
            }
            i = i - 1;
        }
        assert(found@ =~= newest_first(self.sessions@, wanted@));
        found
    }

    /// Drops every session with an identifier.
    pub fn remove_session(&mut self, session_id: &str)
        ensures
            final(self)@ == kept(old(self)@, Keep::OtherSessions { session_id }),
            final(self).ttl() == old(self).ttl(),
            old(self).well_formed() ==> final(self).well_formed(),
    {
        self.retain(&Keep::OtherSessions { session_id });
    }

    /// Drops every session that plays from a server.
    pub fn remove_sessions_for_server(&mut self, server_id: ServerId)
        ensures
            final(self)@ == kept(old(self)@, Keep::OtherServers { server_id }),
            final(self).ttl() == old(self).ttl(),
            old(self).well_formed() ==> final(self).well_formed(),
    {
        self.retain(&Keep::OtherServers { server_id });
    }
}

proof fn lemma_first_pair(
    s: Seq<TrackedPlaybackSession>,
    session_id: Seq<char>,
    item_id: Seq<char>,
    k: int,
)
    requires
        0 <= k <= s.len(),
        forall|j: int| 0 <= j < k ==> !is_pair(#[trigger] s[j].session, session_id, item_id),
        k < s.len() ==> is_pair(s[k].session, session_id, item_id),
    ensures
        first_pair(s, session_id, item_id) == k,
    decreases k,
{
    if k > 0 {
        let t = s.drop_first();
        assert(!is_pair(s[0].session, session_id, item_id));
        assert forall|j: int| 0 <= j < k - 1 implies !is_pair(#[trigger] t[j].session, session_id, item_id) by {
            assert(t[j] == s[j + 1]);
        }
        if k < s.len() {
            assert(t[k - 1] == s[k]);
        }
        lemma_first_pair(t, session_id, item_id, k - 1);
    }
}

proof fn lemma_first_pair_shape(s: Seq<TrackedPlaybackSession>, session_id: Seq<char>, item_id: Seq<char>)
    ensures
        0 <= first_pair(s, session_id, item_id) <= s.len(),
        forall|j: int|
            0 <= j < first_pair(s, session_id, item_id) ==> !is_pair(
                #[trigger] s[j].session,
                session_id,
                item_id,
            ),
        first_pair(s, session_id, item_id) < s.len() ==> is_pair(
            s[first_pair(s, session_id, item_id)].session,
            session_id,
            item_id,
        ),
    decreases s.len(),
{
    if s.len() > 0 && !is_pair(s.first().session, session_id, item_id) {
        let t = s.drop_first();
        lemma_first_pair_shape(t, session_id, item_id);
        assert forall|j: int|
            0 <= j < first_pair(s, session_id, item_id) implies !is_pair(
                #[trigger] s[j].session,
                session_id,
                item_id,
            ) by {
            if j > 0 {
                assert(t[j - 1] == s[j]);
            }
        }
    }
}

/// What a rule keeps has no two entries for one session and item either.
proof fn lemma_kept_unique(s: Seq<TrackedPlaybackSession>, keep: Keep)
    requires
        unique_pairs(s),
    ensures
        unique_pairs(kept(s, keep)),
    decreases s.len(),
{
    reveal(Seq::filter);
    let rule = |entry: TrackedPlaybackSession| keep.keeps(entry);
    if s.len() > 0 {
        let t = s.drop_last();
        assert forall|i: int, j: int| 0 <= i < j < t.len() implies !is_pair(
            #[trigger] t[i].session,
            (#[trigger] t[j]).session.session_id@,
            t[j].session.item_id@,
        ) by {
            assert(t[i] == s[i] && t[j] == s[j]);
        }
        lemma_kept_unique(t, keep);
        if keep.keeps(s.last()) {
            let r = kept(s, keep);
            let q = kept(t, keep);
            assert(r =~= q.push(s.last()));
            assert forall|i: int, j: int| 0 <= i < j < r.len() implies !is_pair(
                #[trigger] r[i].session,
                (#[trigger] r[j]).session.session_id@,
                r[j].session.item_id@,
            ) by {
                if j == r.len() - 1 {
                    t.lemma_filter_contains_rev(rule, r[i]);
                    let k = choose|k: int| 0 <= k < t.len() && t[k] == r[i];
                    assert(s[k] == r[i] && s[s.len() - 1] == r[j]);
                } else {
                    assert(q[i] == r[i] && q[j] == r[j]);
                }
            }
        }
    }
}

proof fn lemma_upserted_unique(s: Seq<TrackedPlaybackSession>, session: PlaybackSession, now: u128)
    requires
        unique_pairs(s),
    ensures
        unique_pairs(upserted(s, session, now)),
{
    lemma_first_pair_shape(s, session.session_id@, session.item_id@);
    let k = first_pair(s, session.session_id@, session.item_id@);
    let r = upserted(s, session, now);
    assert forall|i: int, j: int| 0 <= i < j < r.len() implies !is_pair(
        #[trigger] r[i].session,
        (#[trigger] r[j]).session.session_id@,
        r[j].session.item_id@,
    ) by {
        let oi = if k < s.len() && i >= k { i + 1 } else { i };
        let oj = if k < s.len() && j >= k { j + 1 } else { j };
        if j == r.len() - 1 {
            assert(r[i] == s[oi]);
            if k < s.len() && oi >= k {
                assert(!is_pair(s[k].session, s[oi].session.session_id@, s[oi].session.item_id@));
            }
        } else {
            assert(r[i] == s[oi] && r[j] == s[oj]);
        }
    }
}

/// A lookup hands out wanted sessions of the entries, and nothing else.
pub proof fn law_lookup_hands_out_wanted_entries(s: Seq<TrackedPlaybackSession>, wanted: Wanted, k: int)
    requires
        0 <= k < newest_first(s, wanted).len(),
    ensures
        wanted.wants(newest_first(s, wanted)[k]),
        exists|i: int| 0 <= i < s.len() && (#[trigger] s[i]).session == newest_first(s, wanted)[k],
    decreases s.len(),
{
    let t = s.drop_last();
    if wanted.wants(s.last().session) {
        if k == 0 {
            assert(s[s.len() - 1].session == newest_first(s, wanted)[k]);
        } else {
            law_lookup_hands_out_wanted_entries(t, wanted, k - 1);
            let i = choose|i: int|
                0 <= i < t.len() && (#[trigger] t[i]).session == newest_first(t, wanted)[k - 1];
            assert(s[i].session == newest_first(s, wanted)[k]);
        }
    } else {
        law_lookup_hands_out_wanted_entries(t, wanted, k);
        let i = choose|i: int|
            0 <= i < t.len() && (#[trigger] t[i]).session == newest_first(t, wanted)[k];
        assert(s[i].session == newest_first(s, wanted)[k]);
    }
}

/// A rule keeps exactly the entries that meet it.
proof fn lemma_kept_meets_rule(s: Seq<TrackedPlaybackSession>, keep: Keep, i: int)
    requires
        0 <= i < kept(s, keep).len(),
    ensures
        keep.keeps(kept(s, keep)[i]),
        s.contains(kept(s, keep)[i]),
{
    let rule = |entry: TrackedPlaybackSession| keep.keeps(entry);
    s.lemma_filter_pred(rule, i);
    s.lemma_filter_contains_rev(rule, kept(s, keep)[i]);
}

/// A session that was added is found, by its identifier and by identifier and item, as long as
/// it is alive.
pub proof fn law_added_session_is_found(
    s: Seq<TrackedPlaybackSession>,
    session_ttl: u128,
    session: PlaybackSession,
    now: u128,
    later: u128,
)
    requires
        is_fresh(now, session_ttl, later),
    ensures
        ({
            let session_id = session.session_id@;
            let item_id = session.item_id@;
            let after = alive(upserted(alive(s, session_ttl, now), session, now), session_ttl, later);
            &&& newest(after, Wanted::Session { session_id }) == Some(session)
            &&& newest(after, Wanted::SessionAndItem { session_id, item_id }) == Some(session)
            &&& newest(after, Wanted::Item { item_id }) == Some(session)
        }),
{
    reveal(Seq::filter);
    let added = upserted(alive(s, session_ttl, now), session, now);
    let after = alive(added, session_ttl, later);
    assert(added.last().session == session);
    assert(after.last() == added.last());
}

/// After a session is added there is exactly one entry for its identifier and item, and it is
/// the one that was added.
pub proof fn law_one_entry_per_session_and_item(
    s: Seq<TrackedPlaybackSession>,
    session: PlaybackSession,
    now: u128,
    i: int,
)
    requires
        unique_pairs(s),
        0 <= i < upserted(s, session, now).len(),
        is_pair(upserted(s, session, now)[i].session, session.session_id@, session.item_id@),
    ensures
        i == upserted(s, session, now).len() - 1,
        upserted(s, session, now)[i].session == session,
        upserted(s, session, now)[i].updated_at == now,
{
    lemma_upserted_unique(s, session, now);
    let r = upserted(s, session, now);
    if i < r.len() - 1 {
        assert(!is_pair(r[i].session, r[r.len() - 1].session.session_id@, r[r.len() - 1].session.item_id@));
    }
}

/// Once every entry that is wanted has expired, no lookup finds any.
pub proof fn law_stale_sessions_expire(
    s: Seq<TrackedPlaybackSession>,
    session_ttl: u128,
    now: u128,
    wanted: Wanted,
)
    requires
        forall|i: int|
            0 <= i < s.len() && wanted.wants((#[trigger] s[i]).session) ==> !is_fresh(
                s[i].updated_at,
                session_ttl,
                now,
            ),
    ensures
        newest_first(alive(s, session_ttl, now), wanted).len() == 0,
        newest(alive(s, session_ttl, now), wanted) is None,
{
    let left = alive(s, session_ttl, now);
    if newest_first(left, wanted).len() > 0 {
        law_lookup_hands_out_wanted_entries(left, wanted, 0);
        let i = choose|i: int|
            0 <= i < left.len() && (#[trigger] left[i]).session == newest_first(left, wanted)[0];
        lemma_kept_meets_rule(s, Keep::Fresh { session_ttl, now }, i);
        let k = choose|k: int| 0 <= k < s.len() && s[k] == left[i];
        assert(wanted.wants(s[k].session));
    }
}

/// After the sessions of a server are dropped, no lookup hands out a session of that server.
pub proof fn law_no_session_of_a_removed_server(
    s: Seq<TrackedPlaybackSession>,
    server_id: ServerId,
    wanted: Wanted,
    k: int,
)
    requires
        0 <= k < newest_first(kept(s, Keep::OtherServers { server_id }), wanted).len(),
    ensures
        newest_first(kept(s, Keep::OtherServers { server_id }), wanted)[k].server_id != server_id,
{
    let left = kept(s, Keep::OtherServers { server_id });
    law_lookup_hands_out_wanted_entries(left, wanted, k);
    let i = choose|i: int|
        0 <= i < left.len() && (#[trigger] left[i]).session == newest_first(left, wanted)[k];
    lemma_kept_meets_rule(s, Keep::OtherServers { server_id }, i);
}

/// After a session is removed, no lookup hands out a session with its identifier.
pub proof fn law_no_removed_session(
    s: Seq<TrackedPlaybackSession>,
    session_id: &str,
    wanted: Wanted,
    k: int,
)
    requires
        0 <= k < newest_first(kept(s, Keep::OtherSessions { session_id }), wanted).len(),
    ensures
        newest_first(kept(s, Keep::OtherSessions { session_id }), wanted)[k].session_id@
            != session_id@,
{
    let left = kept(s, Keep::OtherSessions { session_id });
    law_lookup_hands_out_wanted_entries(left, wanted, k);
    let i = choose|i: int|
        0 <= i < left.len() && (#[trigger] left[i]).session == newest_first(left, wanted)[k];
    lemma_kept_meets_rule(s, Keep::OtherSessions { session_id }, i);
}

/// Entries stand in the order of their times.
pub open spec fn in_time_order(s: Seq<TrackedPlaybackSession>) -> bool {
    forall|i: int, j: int|
        0 <= i < j < s.len() ==> (#[trigger] s[i]).updated_at <= (#[trigger] s[j]).updated_at
}

/// With a clock that does not run backwards the entries stay in the order of their times.
pub proof fn law_entries_stay_in_time_order(
    s: Seq<TrackedPlaybackSession>,
    session: PlaybackSession,
    now: u128,
)
    requires
        in_time_order(s),
        forall|i: int| 0 <= i < s.len() ==> (#[trigger] s[i]).updated_at <= now,
    ensures
        in_time_order(upserted(s, session, now)),
{
    lemma_first_pair_shape(s, session.session_id@, session.item_id@);
    let k = first_pair(s, session.session_id@, session.item_id@);
    let r = upserted(s, session, now);
    assert forall|i: int, j: int| 0 <= i < j < r.len() implies (#[trigger] r[i]).updated_at <= (
    #[trigger] r[j]).updated_at by {
        let oi = if k < s.len() && i >= k { i + 1 } else { i };
        let oj = if k < s.len() && j >= k { j + 1 } else { j };
        assert(r[i] == s[oi]);
        if j < r.len() - 1 {
            assert(r[j] == s[oj]);
        }
    }
}

/// A session lives for its time to live after it was last added, and not longer: exactly the entries
/// that are no older stay, in their order.
pub proof fn law_sessions_live_for_their_time(
    s: Seq<TrackedPlaybackSession>,
    session_ttl: u128,
    now: u128,
)
    ensures
        picking::are_picked(
            s,
            alive(s, session_ttl, now),
            |entry: TrackedPlaybackSession| now - entry.updated_at <= session_ttl,
        ),
{
    let keep = Keep::Fresh { session_ttl, now };
    let keeps = |entry: TrackedPlaybackSession| keep.keeps(entry);
    let wanted = |entry: TrackedPlaybackSession| now - entry.updated_at <= session_ttl;
    assert(keeps =~= wanted);
    let places = picking::lemma_filter_picks(s, keeps);
    assert(picking::is_picking(s, s.filter(keeps), wanted, places));
}

/// Where a session is removed, exactly the entries with other identifiers stay; where the sessions
/// of a server are, exactly those on other servers do, in their order.
pub proof fn law_only_what_is_removed_leaves(
    s: Seq<TrackedPlaybackSession>,
    session_id: &str,
    server_id: ServerId,
)
    ensures
        picking::are_picked(
            s,
            kept(s, Keep::OtherSessions { session_id }),
            |entry: TrackedPlaybackSession| entry.session.session_id@ != session_id@,
        ),
        picking::are_picked(
            s,
            kept(s, Keep::OtherServers { server_id }),
            |entry: TrackedPlaybackSession| entry.session.server_id != server_id,
        ),
{
    let by_session = Keep::OtherSessions { session_id };
    let keeps = |entry: TrackedPlaybackSession| by_session.keeps(entry);
    let wanted = |entry: TrackedPlaybackSession| entry.session.session_id@ != session_id@;
    assert(keeps =~= wanted);
    let places = picking::lemma_filter_picks(s, keeps);
    assert(picking::is_picking(s, s.filter(keeps), wanted, places));
    let by_server = Keep::OtherServers { server_id };
    let keeps_server = |entry: TrackedPlaybackSession| by_server.keeps(entry);
    let wanted_server = |entry: TrackedPlaybackSession| entry.session.server_id != server_id;
    assert(keeps_server =~= wanted_server);
    let server_places = picking::lemma_filter_picks(s, keeps_server);
    assert(picking::is_picking(s, s.filter(keeps_server), wanted_server, server_places));
}

/// A session that is added stands at the end, as of now. Of the others exactly the one for the same
/// session and item leaves, if there is one, and the rest keep their order.
pub proof fn law_added_sessions_replace_their_own_kind_only(
    s: Seq<TrackedPlaybackSession>,
    session: PlaybackSession,
    now: u128,
)
    requires
        forall|i: int, j: int|
            0 <= i < j < s.len() ==> (#[trigger] s[i]).session.session_id@ != (
            #[trigger] s[j]).session.session_id@ || s[i].session.item_id@ != s[j].session.item_id@,
    ensures
        upserted(s, session, now).len() > 0,
        upserted(s, session, now).last().session == session,
        upserted(s, session, now).last().updated_at == now,
        picking::are_picked(
            s,
            upserted(s, session, now).drop_last(),
            |entry: TrackedPlaybackSession|
                entry.session.session_id@ != session.session_id@ || entry.session.item_id@
                    != session.item_id@,
        ),
{
    lemma_first_pair_shape(s, session.session_id@, session.item_id@);
    let k = first_pair(s, session.session_id@, session.item_id@);
    let wanted = |entry: TrackedPlaybackSession|
        entry.session.session_id@ != session.session_id@ || entry.session.item_id@
            != session.item_id@;
    let left = upserted(s, session, now).drop_last();
    let places = Seq::new(
        left.len(),
        |i: int|
            if i < k {
                i
            } else {
                i + 1
            },
    );
    assert(left =~= if k < s.len() {
        s.remove(k)
    } else {
        s
    });
    assert forall|i: int| 0 <= i < s.len() implies wanted(#[trigger] s[i]) == places.contains(
        i,
    ) by {
        if i < k {
            assert(places[i] == i);
        } else if i > k {
            assert(places[i - 1] == i);
            assert(s[k].session.session_id@ != s[i].session.session_id@ || s[k].session.item_id@
                != s[i].session.item_id@);
        } else if places.contains(k) {
            let m = places.index_of(k);
            assert(places[m] == k);
        }
    }
    assert(picking::is_picking(s, left, wanted, places));
}

proof fn lemma_newest_is_last(s: Seq<TrackedPlaybackSession>, wanted: Wanted, i: int)
    requires
        0 <= i < s.len(),
        wanted.wants(s[i].session),
        forall|j: int| i < j < s.len() ==> !wanted.wants((#[trigger] s[j]).session),
    ensures
        newest(s, wanted) == Some(s[i].session),
    decreases s.len(),
{
    if i < s.len() - 1 {
        assert(!wanted.wants(s[s.len() - 1].session));
        let rest = s.drop_last();
        assert(rest[i] == s[i]);
        assert forall|j: int| i < j < rest.len() implies !wanted.wants(
            (#[trigger] rest[j]).session,
        ) by {
            assert(rest[j] == s[j]);
        }
        lemma_newest_is_last(rest, wanted, i);
    }
}

/// Whether a session is the one that was added last of those with an identifier, for an item, or
/// both, as far as they are given.
pub open spec fn is_newest_of(
    s: Seq<TrackedPlaybackSession>,
    session_id: Option<Seq<char>>,
    item_id: Option<Seq<char>>,
    found: Option<PlaybackSession>,
) -> bool {
    match found {
        Some(session) => exists|i: int|
            0 <= i < s.len() && (#[trigger] s[i]).session == session && is_asked_for(
                session,
                session_id,
                item_id,
            ) && forall|j: int|
                i < j < s.len() ==> !is_asked_for((#[trigger] s[j]).session, session_id, item_id),
        None => forall|j: int|
            0 <= j < s.len() ==> !is_asked_for((#[trigger] s[j]).session, session_id, item_id),
    }
}

/// Whether a session has the identifier and the item that are asked for, as far as they are given.
pub open spec fn is_asked_for(
    session: PlaybackSession,
    session_id: Option<Seq<char>>,
    item_id: Option<Seq<char>>,
) -> bool {
    &&& session_id matches Some(id) ==> session.session_id@ == id
    &&& item_id matches Some(id) ==> session.item_id@ == id
}

proof fn lemma_newest_of(
    s: Seq<TrackedPlaybackSession>,
    wanted: Wanted,
    session_id: Option<Seq<char>>,
    item_id: Option<Seq<char>>,
)
    requires
        forall|session: PlaybackSession| #[trigger]
            wanted.wants(session) == is_asked_for(session, session_id, item_id),
    ensures
        is_newest_of(s, session_id, item_id, newest(s, wanted)),
    decreases s.len(),
{
    if s.len() == 0 {
    } else if wanted.wants(s.last().session) {
        assert(s[s.len() - 1].session == s.last().session);
        lemma_newest_is_last(s, wanted, s.len() - 1);
    } else {
        let rest = s.drop_last();
        lemma_newest_of(rest, wanted, session_id, item_id);
        assert(newest(s, wanted) == newest(rest, wanted));
        assert(!is_asked_for(s[s.len() - 1].session, session_id, item_id));
        match newest(rest, wanted) {
            Some(session) => {
                let i = choose|i: int|
                    0 <= i < rest.len() && (#[trigger] rest[i]).session == session && is_asked_for(
                        session,
                        session_id,
                        item_id,
                    ) && forall|j: int|
                        i < j < rest.len() ==> !is_asked_for(
                            (#[trigger] rest[j]).session,
                            session_id,
                            item_id,
                        );
                assert(s[i].session == session);
                assert forall|j: int| i < j < s.len() implies !is_asked_for(
                    (#[trigger] s[j]).session,
                    session_id,
                    item_id,
                ) by {
                    if j < rest.len() {
                        assert(rest[j] == s[j]);
                    }
                }
            },
            None => {
                assert forall|j: int| 0 <= j < s.len() implies !is_asked_for(
                    (#[trigger] s[j]).session,
                    session_id,
                    item_id,
                ) by {
                    if j < rest.len() {
                        assert(rest[j] == s[j]);
                    }
                }
            },
        }
    }
}

/// A lookup by identifier, or by identifier and item, finds the session that was added last of those
/// that it asks for, and nothing only where there is none.
pub proof fn law_newest_session_is_found(
    s: Seq<TrackedPlaybackSession>,
    session_id: Seq<char>,
    item_id: Seq<char>,
)
    ensures
        is_newest_of(s, Some(session_id), None, newest(s, Wanted::Session { session_id })),
        is_newest_of(
            s,
            Some(session_id),
            Some(item_id),
            newest(s, Wanted::SessionAndItem { session_id, item_id }),
        ),
{
    lemma_newest_of(s, Wanted::Session { session_id }, Some(session_id), None);
    lemma_newest_of(
        s,
        Wanted::SessionAndItem { session_id, item_id },
        Some(session_id),
        Some(item_id),
    );
}

/// A lookup by item finds all sessions that play it, those added last first: it hands the entries
/// for the item out in the reverse of their order.
pub proof fn law_all_sessions_of_an_item_are_found(
    s: Seq<TrackedPlaybackSession>,
    item_id: Seq<char>,
)
    ensures
        picking::are_picked(
            s.map_values(|entry: TrackedPlaybackSession| entry.session),
            newest_first(s, Wanted::Item { item_id }).reverse(),
            |session: PlaybackSession| session.item_id@ == item_id,
        ),
{
    let wanted = Wanted::Item { item_id };
    let sessions = s.map_values(|entry: TrackedPlaybackSession| entry.session);
    let keeps = |session: PlaybackSession| session.item_id@ == item_id;
    lemma_newest_first_reversed(s, wanted, keeps);
    let places = picking::lemma_filter_picks(sessions, keeps);
}

proof fn lemma_newest_first_reversed(
    s: Seq<TrackedPlaybackSession>,
    wanted: Wanted,
    keeps: spec_fn(PlaybackSession) -> bool,
)
    requires
        forall|session: PlaybackSession| #[trigger] keeps(session) == wanted.wants(session),
    ensures
        newest_first(s, wanted).reverse() == s.map_values(
            |entry: TrackedPlaybackSession| entry.session,
        ).filter(keeps),
    decreases s.len(),
{
    reveal(Seq::filter);
    let sessions = s.map_values(|entry: TrackedPlaybackSession| entry.session);
    if s.len() == 0 {
        assert(newest_first(s, wanted).reverse() =~= Seq::empty());
        assert(sessions.filter(keeps) =~= Seq::empty());
    } else {
        let rest = s.drop_last();
        lemma_newest_first_reversed(rest, wanted, keeps);
        assert(sessions.drop_last() =~= rest.map_values(
            |entry: TrackedPlaybackSession| entry.session,
        ));
        let before = newest_first(rest, wanted);
        assert(keeps(s.last().session) == wanted.wants(s.last().session));
        if wanted.wants(s.last().session) {
            assert((seq![s.last().session] + before).reverse() =~= before.reverse().push(
                s.last().session,
            ));
        }
    }
}

} // verus!
