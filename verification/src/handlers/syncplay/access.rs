//! Whether users may play items: each of them needs a session on the server of each item.

use crate::server_id::ServerId;
use crate::status;
use crate::text;
use vstd::prelude::*;

verus! {

/// A user and the servers on which the user has sessions.
pub struct UserServers {
    pub user_id: String,
    pub servers: Vec<ServerId>,
}

/// What a [`UserServers`] says.
pub struct UserServersView {
    pub user_id: Seq<char>,
    pub servers: Seq<ServerId>,
}

impl View for UserServers {
    type V = UserServersView;

    open spec fn view(&self) -> UserServersView {
        UserServersView { user_id: self.user_id@, servers: self.servers@ }
    }
}

/// A check of whether users may play items.
pub struct AccessCheck {
    users: Vec<String>,
    items: Vec<String>,
    known: Vec<UserServers>,
    next_user: usize,
    passed: Vec<ServerId>,
    outcome: Option<Result<bool, u16>>,
}

/// The state of a check.
pub struct AccessCheckView {
    pub users: Seq<Seq<char>>,
    pub items: Seq<Seq<char>>,
    /// The users that were looked up.
    pub known: Seq<UserServersView>,
    /// The place of the next user to look up; behind the last one, items are looked up.
    pub next_user: int,
    /// The servers of the items that all users may play so far.
    pub passed: Seq<ServerId>,
    /// Whether access is granted, or the status to answer with, once that is settled.
    pub outcome: Option<Result<bool, u16>>,
}

impl View for AccessCheck {
    type V = AccessCheckView;

    closed spec fn view(&self) -> AccessCheckView {
        AccessCheckView {
            users: text::string_views(self.users@),
            items: text::string_views(self.items@),
            known: self.known@.map_values(|user: UserServers| user@),
            next_user: self.next_user as int,
            passed: self.passed@,
            outcome: self.outcome,
        }
    }
}

/// Whether a user was looked up.
pub open spec fn is_known(known: Seq<UserServersView>, user_id: Seq<char>) -> bool {
    exists|k: int| 0 <= k < known.len() && (#[trigger] known[k]).user_id == user_id
}

/// The first place from `at` on of a user that was not looked up; the number of users if there is
/// none.
pub open spec fn next_unknown(
    users: Seq<Seq<char>>,
    known: Seq<UserServersView>,
    at: int,
) -> int
    decreases users.len() - at,
{
    if at >= users.len() {
        users.len() as int
    } else if is_known(known, users[at]) {
        next_unknown(users, known, at + 1)
    } else {
        at
    }
}

/// Whether every user that was looked up has a session on a server.
pub open spec fn all_have(known: Seq<UserServersView>, server: ServerId) -> bool {
    forall|k: int| 0 <= k < known.len() ==> (#[trigger] known[k]).servers.contains(server)
}

/// What has to be looked up next.
pub enum AccessStep<'a> {
    /// The servers on which a user has sessions.
    User(&'a str),
    /// The server that an item is mapped to.
    Item(&'a str),
    /// Nothing: access is granted or not, or the status is to be answered.
    Done(Result<bool, u16>),
}

/// The state after a check was begun. Without items access is granted.
pub open spec fn begun(users: Seq<Seq<char>>, items: Seq<Seq<char>>) -> AccessCheckView {
    AccessCheckView {
        users,
        items,
        known: Seq::empty(),
        next_user: 0,
        passed: Seq::empty(),
        outcome: if items.len() == 0 {
            Some(Ok(true))
        } else {
            None
        },
    }
}

/// The state after a user was looked up.
pub open spec fn user_looked_up(
    check: AccessCheckView,
    found: Result<Option<Seq<ServerId>>, ()>,
) -> AccessCheckView {
    match found {
        Ok(Some(servers)) => {
            let known = check.known.push(
                UserServersView { user_id: check.users[check.next_user], servers },
            );
            AccessCheckView {
                known,
                next_user: next_unknown(check.users, known, check.next_user + 1),
                ..check
            }
        },
        Ok(None) => AccessCheckView { outcome: Some(Ok(false)), ..check },
        Err(_) => AccessCheckView {
            outcome: Some(Err(status::INTERNAL_SERVER_ERROR)),
            ..check
        },
    }
}

/// The state after an item was looked up.
pub open spec fn item_looked_up(
    check: AccessCheckView,
    found: Result<Option<ServerId>, ()>,
) -> AccessCheckView {
    match found {
        Ok(Some(server)) => if all_have(check.known, server) {
            let passed = check.passed.push(server);
            AccessCheckView {
                passed,
                outcome: if passed.len() == check.items.len() {
                    Some(Ok(true))
                } else {
                    None
                },
                ..check
            }
        } else {
            AccessCheckView { outcome: Some(Ok(false)), ..check }
        },
        Ok(None) => AccessCheckView { outcome: Some(Ok(false)), ..check },
        Err(_) => AccessCheckView {
            outcome: Some(Err(status::INTERNAL_SERVER_ERROR)),
            ..check
        },
    }
}

/// Whether a user is the next to look up.
pub open spec fn awaits_user(check: AccessCheckView) -> bool {
    check.outcome is None && check.next_user < check.users.len()
}

/// Whether an item is the next to look up.
pub open spec fn awaits_item(check: AccessCheckView) -> bool {
    check.outcome is None && check.next_user >= check.users.len()
}

/// What a lookup of a user found.
pub open spec fn servers_found(found: Result<Option<Vec<ServerId>>, ()>) -> Result<
    Option<Seq<ServerId>>,
    (),
> {
    match found {
        Ok(Some(servers)) => Ok(Some(servers@)),
        Ok(None) => Ok(None),
        Err(_) => Err(()),
    }
}

fn holds(servers: &Vec<ServerId>, server: ServerId) -> (r: bool)
    ensures
        r == servers@.contains(server),
{
    let mut i: usize = 0;
    while i < servers.len()
        invariant
            i <= servers.len(),
            forall|k: int| 0 <= k < i ==> servers@[k] != server,
        decreases servers.len() - i,
    {
        if servers[i] == server {
            assert(servers@[i as int] == server);
            return true;
        }
        i = i + 1;
    }
    false
}

impl AccessCheck {
    #[verifier::type_invariant]
    spec fn stays_in_the_lists(&self) -> bool {
        &&& self.next_user <= self.users.len()
        &&& self.outcome is None ==> self.passed.len() < self.items.len()
    }

    /// What has to be looked up next.
    pub fn step(&self) -> (r: AccessStep<'_>)
        ensures
            match r {
                AccessStep::User(id) => awaits_user(self@) && id@ == self@.users[self@.next_user],
                AccessStep::Item(id) => awaits_item(self@) && id@
                    == self@.items[self@.passed.len() as int],
                AccessStep::Done(outcome) => self@.outcome == Some(outcome),
            },
    {
        proof {
            use_type_invariant(self);
        }
        match self.outcome {
            Some(outcome) => AccessStep::Done(outcome),
            None => if self.next_user < self.users.len() {
                AccessStep::User(self.users[self.next_user].as_str())
            } else {
                AccessStep::Item(self.items[self.passed.len()].as_str())
            },
        }
    }

    fn knows(known: &Vec<UserServers>, user_id: &String) -> (r: bool)
        ensures
            r == is_known(known@.map_values(|user: UserServers| user@), user_id@),
    {
        let ghost views = known@.map_values(|user: UserServers| user@);
        let mut i: usize = 0;
        while i < known.len()
            invariant
                i <= known.len(),
                views == known@.map_values(|user: UserServers| user@),
                forall|k: int| 0 <= k < i ==> (#[trigger] views[k]).user_id != user_id@,
            decreases known.len() - i,
        {
            if known[i].user_id == *user_id {
                assert(views[i as int].user_id == user_id@);
                return true;
            }
            i = i + 1;
        }
        false
    }

    /// Goes on with the servers on which the user has sessions; `None` where there is no such
    /// user, an error where that could not be looked up.
    pub fn user(self, found: Result<Option<Vec<ServerId>>, ()>) -> (r: Self)
        ensures
            r@ == if awaits_user(self@) {
                user_looked_up(self@, servers_found(found))
            } else {
                self@
            },
    {
        proof {
            use_type_invariant(&self);
        }
        let ghost before = self@;
        if self.outcome.is_some() || self.next_user >= self.users.len() {
            return self;
        }
        let AccessCheck { users, items, known, next_user, passed, outcome } = self;
        match found {
            Ok(Some(servers)) => {
                let mut known: Vec<UserServers> = known;
                let ghost old_known = known@;
                known.push(UserServers { user_id: users[next_user].clone(), servers });
                let ghost views = known@.map_values(|user: UserServers| user@);
                assert(views =~= before.known.push(
                    UserServersView { user_id: before.users[before.next_user], servers: servers@ },
                ));
                let mut at: usize = next_user + 1;
                while at < users.len() && AccessCheck::knows(&known, &users[at])
                    invariant
                        next_user < at <= users.len(),
                        before.users == text::string_views(users@),
                        views == known@.map_values(|user: UserServers| user@),
                        next_unknown(before.users, views, at as int) == next_unknown(
                            before.users,
                            views,
                            next_user + 1,
                        ),
                    decreases users.len() - at,
                {
                    at = at + 1;
                }
                AccessCheck { users, items, known, next_user: at, passed, outcome }
            },
            Ok(None) => AccessCheck {
                users,
                items,
                known,
                next_user,
                passed,
                outcome: Some(Ok(false)),
            },
            Err(_) => AccessCheck {
                users,
                items,
                known,
                next_user,
                passed,
                outcome: Some(Err(status::INTERNAL_SERVER_ERROR)),
            },
        }
    }

    fn every_user_has(known: &Vec<UserServers>, server: ServerId) -> (r: bool)
        ensures
            r == all_have(known@.map_values(|user: UserServers| user@), server),
    {
        let ghost views = known@.map_values(|user: UserServers| user@);
        let mut i: usize = 0;
        while i < known.len()
            invariant
                i <= known.len(),
                views == known@.map_values(|user: UserServers| user@),
                forall|k: int| 0 <= k < i ==> (#[trigger] views[k]).servers.contains(server),
            decreases known.len() - i,
        {
            if !holds(&known[i].servers, server) {
                assert(!views[i as int].servers.contains(server));
                return false;
            }
            assert(views[i as int].servers.contains(server));
            i = i + 1;
        }
        true
    }

    /// Goes on with the server that the item is mapped to; `None` where it is not mapped, an error
    /// where that could not be looked up.
    pub fn item(self, found: Result<Option<ServerId>, ()>) -> (r: Self)
        ensures
            r@ == if awaits_item(self@) {
                item_looked_up(self@, found)
            } else {
                self@
            },
    {
        proof {
            use_type_invariant(&self);
        }
        if self.outcome.is_some() || self.next_user < self.users.len() {
            return self;
        }
        let AccessCheck { users, items, known, next_user, passed, .. } = self;
        match found {
            Ok(Some(server)) => {
                if AccessCheck::every_user_has(&known, server) {
                    let mut passed: Vec<ServerId> = passed;
                    passed.push(server);
                    let outcome = if passed.len() == items.len() {
                        Some(Ok(true))
                    } else {
                        None
                    };
                    AccessCheck { users, items, known, next_user, passed, outcome }
                } else {
                    AccessCheck {
                        users,
                        items,
                        known,
                        next_user,
                        passed,
                        outcome: Some(Ok(false)),
                    }
                }
            },
            Ok(None) => AccessCheck {
                users,
                items,
                known,
                next_user,
                passed,
                outcome: Some(Ok(false)),
            },
            Err(_) => AccessCheck {
                users,
                items,
                known,
                next_user,
                passed,
                outcome: Some(Err(status::INTERNAL_SERVER_ERROR)),
            },
        }
    }
}

/// Begins to check whether users may play items.
pub fn users_have_library_access_to_items(user_ids: Vec<String>, item_ids: Vec<String>) -> (r:
    AccessCheck)
    ensures
        r@ == begun(text::string_views(user_ids@), text::string_views(item_ids@)),
{
    let outcome = if item_ids.len() == 0 {
        Some(Ok(true))
    } else {
        None
    };
    let check = AccessCheck {
        users: user_ids,
        items: item_ids,
        known: Vec::new(),
        next_user: 0,
        passed: Vec::new(),
        outcome,
    };
    assert(check@.known =~= Seq::empty());
    assert(check@.passed =~= Seq::empty());
    check
}

/// Begins to check whether one user may play items.
pub fn user_has_library_access(user_id: &str, item_ids: Vec<String>) -> (r: AccessCheck)
    ensures
        r@ == begun(seq![user_id@], text::string_views(item_ids@)),
{
    let mut user_ids: Vec<String> = Vec::new();
    user_ids.push(user_id.to_owned());
    assert(text::string_views(user_ids@) =~= seq![user_id@]);
    users_have_library_access_to_items(user_ids, item_ids)
}

/// The user that the identifier of a session begins with: what stands before the first colon, if
/// that is anything.
pub open spec fn session_user(session_id: Seq<char>) -> Option<Seq<char>> {
    let user = session_id.take(text::until(session_id, ':') as int);
    if user.len() > 0 {
        Some(user)
    } else {
        None
    }
}

/// The user that the identifier of a session begins with.
pub fn user_id_from_session_id(session_id: &str) -> (r: Option<&str>)
    ensures
        match session_user(session_id@) {
            Some(user) => r matches Some(s) && s@ == user,
            None => r is None,
        },
{
    let user = text::before(session_id, ':');
    if user.is_empty() {
        None
    } else {
        Some(user)
    }
}

/// The users of sessions, in their order.
pub open spec fn session_users(session_ids: Seq<Seq<char>>) -> Seq<Seq<char>>
    decreases session_ids.len(),
{
    if session_ids.len() == 0 {
        Seq::empty()
    } else {
        let rest = session_users(session_ids.drop_last());
        match session_user(session_ids.last()) {
            Some(user) => rest.push(user),
            None => rest,
        }
    }
}

/// Begins to check whether the users of all sessions of a group may play items.
pub fn group_has_library_access(session_ids: &Vec<String>, item_ids: Vec<String>) -> (r:
    AccessCheck)
    ensures
        r@ == begun(session_users(text::string_views(session_ids@)), text::string_views(item_ids@)),
{
    let ghost all = text::string_views(session_ids@);
    let mut user_ids: Vec<String> = Vec::new();
    let mut i: usize = 0;
    assert(all.take(0) =~= Seq::empty());
    assert(text::string_views(user_ids@) =~= Seq::empty());
    while i < session_ids.len()
        invariant
            i <= session_ids.len(),
            all == text::string_views(session_ids@),
            text::string_views(user_ids@) == session_users(all.take(i as int)),
        decreases session_ids.len() - i,
    {
        assert(all.take(i + 1).drop_last() =~= all.take(i as int));
        let ghost so_far = user_ids@;
        if let Some(user_id) = user_id_from_session_id(session_ids[i].as_str()) {
            user_ids.push(user_id.to_owned());
            assert(text::string_views(user_ids@) =~= text::string_views(so_far).push(user_id@));
        }
        i = i + 1;
    }
    assert(all.take(i as int) =~= all);
    users_have_library_access_to_items(user_ids, item_ids)
}

/// Whether the state of a check tells the truth: every user before the next one was looked up, and
/// each of them has a session on the servers of the items that passed.
pub open spec fn is_truthful(check: AccessCheckView) -> bool {
    &&& forall|i: int|
        0 <= i < check.next_user && i < check.users.len() ==> is_known(
            check.known,
            #[trigger] check.users[i],
        )
    &&& forall|j: int|
        0 <= j < check.passed.len() ==> all_have(check.known, #[trigger] check.passed[j])
    &&& check.passed.len() > 0 ==> check.next_user >= check.users.len()
    &&& check.outcome == Some(Ok::<bool, u16>(true)) ==> check.passed.len() == check.items.len()
    &&& 0 <= check.next_user
}

proof fn lemma_next_unknown(users: Seq<Seq<char>>, known: Seq<UserServersView>, at: int)
    requires
        0 <= at <= users.len(),
    ensures
        at <= next_unknown(users, known, at) <= users.len(),
        forall|i: int|
            at <= i < next_unknown(users, known, at) ==> is_known(known, #[trigger] users[i]),
    decreases users.len() - at,
{
    if at < users.len() && is_known(known, users[at]) {
        lemma_next_unknown(users, known, at + 1);
    }
}

/// A check begins truthful and stays so.
pub proof fn law_check_is_truthful(
    users: Seq<Seq<char>>,
    items: Seq<Seq<char>>,
    check: AccessCheckView,
    servers: Result<Option<Seq<ServerId>>, ()>,
    mapped: Result<Option<ServerId>, ()>,
)
    requires
        is_truthful(check),
    ensures
        is_truthful(begun(users, items)),
        awaits_user(check) ==> is_truthful(user_looked_up(check, servers)),
        awaits_item(check) ==> is_truthful(item_looked_up(check, mapped)),
{
    if awaits_user(check) {
        let next = user_looked_up(check, servers);
        if let Ok(Some(list)) = servers {
            lemma_next_unknown(check.users, next.known, check.next_user + 1);
            assert(next.known[check.known.len() as int].user_id == check.users[check.next_user]);
            assert forall|i: int| 0 <= i < next.next_user && i < next.users.len() implies is_known(
                next.known,
                #[trigger] next.users[i],
            ) by {
                if i < check.next_user {
                    assert(is_known(check.known, check.users[i]));
                    let k = choose|k: int|
                        0 <= k < check.known.len() && (#[trigger] check.known[k]).user_id
                            == check.users[i];
                    assert(next.known[k].user_id == check.users[i]);
                }
            }
        }
    }
    if awaits_item(check) {
        let next = item_looked_up(check, mapped);
        assert forall|j: int| 0 <= j < next.passed.len() implies all_have(
            next.known,
            #[trigger] next.passed[j],
        ) by {
            if j < check.passed.len() {
                assert(check.passed[j] == next.passed[j]);
            }
        }
    }
}

/// Access is granted only if every user has a session on the server of every item.
pub proof fn law_granted_only_to_users_of_all_servers(check: AccessCheckView, i: int, j: int)
    requires
        is_truthful(check),
        check.outcome == Some(Ok::<bool, u16>(true)),
        0 <= i < check.users.len(),
        0 <= j < check.items.len(),
    ensures
        exists|k: int|
            0 <= k < check.known.len() && (#[trigger] check.known[k]).user_id == check.users[i]
                && check.known[k].servers.contains(check.passed[j]),
{
    assert(is_known(check.known, check.users[i]));
    assert(all_have(check.known, check.passed[j]));
}

/// What lookups of users find.
pub type UserLookup = spec_fn(Seq<char>) -> Result<Option<Seq<ServerId>>, ()>;

/// What lookups of items find.
pub type ItemLookup = spec_fn(Seq<char>) -> Result<Option<ServerId>, ()>;

/// Whether a user has a session on the server of an item.
pub open spec fn reaches(
    servers: Result<Option<Seq<ServerId>>, ()>,
    mapped: Result<Option<ServerId>, ()>,
) -> bool {
    servers matches Ok(Some(list)) && mapped matches Ok(Some(server)) && list.contains(server)
}

/// Whether an item is mapped to a server.
pub open spec fn is_mapped(mapped: Result<Option<ServerId>, ()>) -> bool {
    mapped matches Ok(Some(_))
}

/// Whether all items are mapped, and all users have sessions on their servers.
pub open spec fn may_play(
    users: Seq<Seq<char>>,
    items: Seq<Seq<char>>,
    of_user: UserLookup,
    of_item: ItemLookup,
) -> bool {
    &&& forall|j: int| 0 <= j < items.len() ==> is_mapped(#[trigger] of_item(items[j]))
    &&& forall|i: int, j: int|
        0 <= i < users.len() && 0 <= j < items.len() ==> #[trigger] reaches(
            of_user(users[i]),
            of_item(items[j]),
        )
}

/// Whether some user is unknown, some item is not mapped, or some user has no session on the server
/// of some item.
pub open spec fn may_not_play(
    users: Seq<Seq<char>>,
    items: Seq<Seq<char>>,
    of_user: UserLookup,
    of_item: ItemLookup,
) -> bool {
    ||| exists|i: int| 0 <= i < users.len() && #[trigger] of_user(users[i]) == Ok::<
        Option<Seq<ServerId>>,
        (),
    >(None)
    ||| exists|j: int| 0 <= j < items.len() && #[trigger] of_item(items[j]) == Ok::<
        Option<ServerId>,
        (),
    >(None)
    ||| exists|i: int, j: int|
        0 <= i < users.len() && 0 <= j < items.len() && #[trigger] lacks(
            of_user(users[i]),
            of_item(items[j]),
        )
}

/// Whether a user has no session on the server of an item.
pub open spec fn lacks(
    servers: Result<Option<Seq<ServerId>>, ()>,
    mapped: Result<Option<ServerId>, ()>,
) -> bool {
    servers matches Ok(Some(list)) && mapped matches Ok(Some(server)) && !list.contains(server)
}

/// Whether some lookup fails.
pub open spec fn some_lookup_fails(
    users: Seq<Seq<char>>,
    items: Seq<Seq<char>>,
    of_user: UserLookup,
    of_item: ItemLookup,
) -> bool {
    ||| exists|i: int| 0 <= i < users.len() && #[trigger] of_user(users[i]) is Err
    ||| exists|j: int| 0 <= j < items.len() && #[trigger] of_item(items[j]) is Err
}

/// Whether the state of a check is one that lookups lead to.
pub open spec fn accords(
    check: AccessCheckView,
    of_user: UserLookup,
    of_item: ItemLookup,
) -> bool {
    &&& 0 <= check.next_user <= check.users.len()
    &&& check.passed.len() <= check.items.len()
    &&& check.passed.len() > 0 ==> check.next_user == check.users.len()
    &&& forall|k: int|
        0 <= k < check.known.len() ==> {
            &&& of_user((#[trigger] check.known[k]).user_id) == Ok::<Option<Seq<ServerId>>, ()>(
                Some(check.known[k].servers),
            )
            &&& check.users.contains(check.known[k].user_id)
        }
    &&& forall|i: int|
        0 <= i < check.next_user ==> is_known(check.known, #[trigger] check.users[i])
    &&& forall|j: int|
        0 <= j < check.passed.len() ==> {
            &&& of_item(check.items[j]) == Ok::<Option<ServerId>, ()>(
                Some(#[trigger] check.passed[j]),
            )
            &&& all_have(check.known, check.passed[j])
        }
    &&& match check.outcome {
        None => check.passed.len() < check.items.len(),
        Some(Ok(true)) => may_play(check.users, check.items, of_user, of_item),
        Some(Ok(false)) => check.items.len() > 0 && may_not_play(
            check.users,
            check.items,
            of_user,
            of_item,
        ),
        Some(Err(code)) => code == status::INTERNAL_SERVER_ERROR && some_lookup_fails(
            check.users,
            check.items,
            of_user,
            of_item,
        ),
    }
}

proof fn lemma_user_looked_up(
    check: AccessCheckView,
    of_user: UserLookup,
    of_item: ItemLookup,
)
    requires
        accords(check, of_user, of_item),
        awaits_user(check),
    ensures
        accords(user_looked_up(check, of_user(check.users[check.next_user])), of_user, of_item),
{
    let user = check.users[check.next_user];
    let next = user_looked_up(check, of_user(user));
    if let Ok(Some(list)) = of_user(user) {
        lemma_next_unknown(check.users, next.known, check.next_user + 1);
        assert(next.known[check.known.len() as int].user_id == user);
        assert forall|i: int| 0 <= i < next.next_user implies is_known(
            next.known,
            #[trigger] next.users[i],
        ) by {
            if i < check.next_user {
                assert(is_known(check.known, check.users[i]));
                let k = choose|k: int|
                    0 <= k < check.known.len() && (#[trigger] check.known[k]).user_id
                        == check.users[i];
                assert(next.known[k].user_id == check.users[i]);
            }
        }
    }
}

proof fn lemma_item_looked_up(
    check: AccessCheckView,
    of_user: UserLookup,
    of_item: ItemLookup,
)
    requires
        accords(check, of_user, of_item),
        awaits_item(check),
    ensures
        accords(
            item_looked_up(check, of_item(check.items[check.passed.len() as int])),
            of_user,
            of_item,
        ),
{
    let at = check.passed.len() as int;
    let found = of_item(check.items[at]);
    let next = item_looked_up(check, found);
    if let Ok(Some(server)) = found {
        if all_have(check.known, server) {
            if next.passed.len() == check.items.len() {
                assert forall|j: int| 0 <= j < check.items.len() implies is_mapped(
                    #[trigger] of_item(check.items[j]),
                ) by {
                    if j < at {
                        assert(of_item(check.items[j]) == Ok::<Option<ServerId>, ()>(
                            Some(check.passed[j]),
                        ));
                    }
                }
                assert forall|i: int, j: int|
                    0 <= i < check.users.len() && 0 <= j < check.items.len() implies #[trigger] reaches(
                    of_user(check.users[i]),
                    of_item(check.items[j]),
                ) by {
                    assert(is_known(check.known, check.users[i]));
                    assert(all_have(check.known, next.passed[j]));
                }
            }
        } else {
            let k = choose|k: int|
                0 <= k < check.known.len() && !(#[trigger] check.known[k]).servers.contains(server);
            let i = check.users.index_of(check.known[k].user_id);
            assert(lacks(of_user(check.users[i]), of_item(check.items[at])));
        }
    }
}

/// A check accords with its lookups when it begins, and each lookup keeps it so.
pub proof fn law_check_accords_with_its_lookups(
    users: Seq<Seq<char>>,
    items: Seq<Seq<char>>,
    check: AccessCheckView,
    of_user: UserLookup,
    of_item: ItemLookup,
)
    requires
        accords(check, of_user, of_item),
    ensures
        accords(begun(users, items), of_user, of_item),
        awaits_user(check) ==> accords(
            user_looked_up(check, of_user(check.users[check.next_user])),
            of_user,
            of_item,
        ),
        awaits_item(check) ==> accords(
            item_looked_up(check, of_item(check.items[check.passed.len() as int])),
            of_user,
            of_item,
        ),
{
    if awaits_user(check) {
        lemma_user_looked_up(check, of_user, of_item);
    }
    if awaits_item(check) {
        lemma_item_looked_up(check, of_user, of_item);
    }
}

/// A check grants access exactly where all items are mapped and all users have sessions on their
/// servers. It refuses access only because a user is unknown, an item is not mapped, or a user has
/// no session on the server of an item, and only a lookup that fails ends it with a status.
pub proof fn law_check_tells_who_may_play(
    check: AccessCheckView,
    of_user: UserLookup,
    of_item: ItemLookup,
)
    requires
        accords(check, of_user, of_item),
    ensures
        check.outcome matches Some(Ok(granted)) ==> granted == may_play(
            check.users,
            check.items,
            of_user,
            of_item,
        ),
        check.outcome == Some(Ok::<bool, u16>(false)) ==> may_not_play(
            check.users,
            check.items,
            of_user,
            of_item,
        ),
        check.outcome matches Some(Err(code)) ==> code == status::INTERNAL_SERVER_ERROR
            && some_lookup_fails(check.users, check.items, of_user, of_item),
{
    if check.outcome == Some(Ok::<bool, u16>(false)) && may_play(
        check.users,
        check.items,
        of_user,
        of_item,
    ) {
        assert forall|i: int, j: int|
            0 <= i < check.users.len() && 0 <= j < check.items.len() implies !#[trigger] lacks(
            of_user(check.users[i]),
            of_item(check.items[j]),
        ) by {
            assert(reaches(of_user(check.users[i]), of_item(check.items[j])));
        }
        assert forall|i: int| 0 <= i < check.users.len() implies #[trigger] of_user(check.users[i])
            != Ok::<Option<Seq<ServerId>>, ()>(None) by {
            assert(reaches(of_user(check.users[i]), of_item(check.items[0])));
        }
        assert forall|j: int| 0 <= j < check.items.len() implies #[trigger] of_item(check.items[j])
            != Ok::<Option<ServerId>, ()>(None) by {
            assert(is_mapped(of_item(check.items[j])));
        }
    }
}

/// How far a check is from its end: users and items that are left.
pub open spec fn lookups_left(check: AccessCheckView) -> int {
    if check.outcome is Some {
        0
    } else {
        (check.users.len() - check.next_user) + (check.items.len() - check.passed.len()) + 1
    }
}

/// Each lookup brings a check nearer to its end.
pub proof fn law_check_ends(
    check: AccessCheckView,
    servers: Result<Option<Seq<ServerId>>, ()>,
    mapped: Result<Option<ServerId>, ()>,
)
    requires
        0 <= check.next_user <= check.users.len(),
        check.passed.len() <= check.items.len(),
        check.outcome is None,
    ensures
        awaits_user(check) ==> lookups_left(user_looked_up(check, servers)) < lookups_left(check),
        awaits_item(check) ==> lookups_left(item_looked_up(check, mapped)) < lookups_left(check),
{
    if awaits_user(check) {
        if let Ok(Some(list)) = servers {
            let next = user_looked_up(check, servers);
            lemma_next_unknown(check.users, next.known, check.next_user + 1);
        }
    }
}

/// Whether the identifier of a session begins with a user: with a text that is not empty and has no
/// colon, and behind which the identifier ends or goes on with a colon.
pub open spec fn is_of_user(session_id: Seq<char>, user: Seq<char>) -> bool {
    &&& 0 < user.len() <= session_id.len()
    &&& forall|k: int| 0 <= k < user.len() ==> user[k] == #[trigger] session_id[k]
    &&& forall|k: int| 0 <= k < user.len() ==> #[trigger] session_id[k] != ':'
    &&& user.len() == session_id.len() || session_id[user.len() as int] == ':'
}

/// A session has a user exactly where its identifier begins with one.
pub proof fn law_session_begins_with_its_user(session_id: Seq<char>, user: Seq<char>)
    ensures
        session_user(session_id) == Some(user) <==> is_of_user(session_id, user),
        session_user(session_id) is None <==> session_id.len() == 0 || session_id[0] == ':',
{
    text::law_first_occurrence(session_id, ':');
    let n = text::until(session_id, ':') as int;
    let found = session_id.take(n);
    if n > 0 {
        assert(is_of_user(session_id, found));
    }
    if is_of_user(session_id, user) {
        if user.len() < n {
            assert(session_id[user.len() as int] == ':');
        }
        if n < user.len() {
            assert(session_id[n] != ':');
        }
        assert(found =~= user);
    }
}

/// The users of a group are those of all its sessions, and no others.
pub proof fn law_users_of_all_sessions_count(session_ids: Seq<Seq<char>>)
    ensures
        forall|i: int, user: Seq<char>|
            0 <= i < session_ids.len() && #[trigger] is_of_user(session_ids[i], user)
                ==> session_users(session_ids).contains(user),
        forall|k: int|
            0 <= k < session_users(session_ids).len() ==> exists|i: int|
                0 <= i < session_ids.len() && is_of_user(
                    #[trigger] session_ids[i],
                    #[trigger] session_users(session_ids)[k],
                ),
    decreases session_ids.len(),
{
    if session_ids.len() > 0 {
        let before = session_ids.drop_last();
        let rest = session_users(before);
        let all = session_users(session_ids);
        law_users_of_all_sessions_count(before);
        assert forall|i: int, user: Seq<char>|
            0 <= i < session_ids.len() && #[trigger] is_of_user(
                session_ids[i],
                user,
            ) implies all.contains(user) by {
            if i < before.len() {
                assert(is_of_user(before[i], user));
                assert(rest.contains(user));
                let k = rest.index_of(user);
                assert(all[k] == user);
            } else {
                law_session_begins_with_its_user(session_ids[i], user);
                assert(all[rest.len() as int] == user);
            }
        }
        assert forall|k: int| 0 <= k < all.len() implies exists|i: int|
            0 <= i < session_ids.len() && is_of_user(
                #[trigger] session_ids[i],
                #[trigger] all[k],
            ) by {
            if k < rest.len() {
                assert(all[k] == rest[k]);
                let i = choose|i: int|
                    0 <= i < before.len() && is_of_user(#[trigger] before[i], rest[k]);
                assert(session_ids[i] == before[i]);
            } else {
                law_session_begins_with_its_user(session_ids.last(), all[k]);
                assert(session_ids[session_ids.len() - 1] == session_ids.last());
            }
        }
    }
}

/// A check begins with all its users and items still to be looked up, and access is granted at once
/// exactly where there are no items.
pub proof fn law_checks_begin_with_all_lookups(users: Seq<Seq<char>>, items: Seq<Seq<char>>)
    ensures
        begun(users, items).users == users,
        begun(users, items).items == items,
        begun(users, items).known.len() == 0,
        begun(users, items).passed.len() == 0,
        begun(users, items).next_user == 0,
        items.len() == 0 ==> begun(users, items).outcome == Some(Ok::<bool, u16>(true)),
        items.len() > 0 ==> begun(users, items).outcome is None,
{
}

/// A lookup that fails ends a check with an internal server error; a user that is unknown, an item
/// that is not mapped and an item on a server where some user has no session end it without access.
/// What was looked for never changes.
pub proof fn law_lookups_settle_checks(
    check: AccessCheckView,
    servers: Result<Option<Seq<ServerId>>, ()>,
    mapped: Result<Option<ServerId>, ()>,
)
    requires
        check.outcome is None,
    ensures
        servers is Err ==> user_looked_up(check, servers).outcome == Some(Err::<bool, u16>(500)),
        servers == Ok::<Option<Seq<ServerId>>, ()>(None) ==> user_looked_up(check, servers).outcome
            == Some(Ok::<bool, u16>(false)),
        servers matches Ok(Some(list)) ==> {
            let next = user_looked_up(check, servers);
            &&& next.outcome is None
            &&& next.passed == check.passed
            &&& next.known.len() == check.known.len() + 1
            &&& next.known.last().user_id == check.users[check.next_user]
            &&& next.known.last().servers == list
        },
        mapped is Err ==> item_looked_up(check, mapped).outcome == Some(Err::<bool, u16>(500)),
        mapped == Ok::<Option<ServerId>, ()>(None) ==> item_looked_up(check, mapped).outcome
            == Some(Ok::<bool, u16>(false)),
        mapped matches Ok(Some(server)) ==> {
            let next = item_looked_up(check, mapped);
            if exists|k: int|
                0 <= k < check.known.len() && !(#[trigger] check.known[k]).servers.contains(
                    server,
                ) {
                next.outcome == Some(Ok::<bool, u16>(false))
            } else {
                &&& next.passed.len() == check.passed.len() + 1
                &&& next.passed.last() == server
                &&& next.outcome == if check.passed.len() + 1 == check.items.len() {
                    Some(Ok::<bool, u16>(true))
                } else {
                    None
                }
            }
        },
        user_looked_up(check, servers).users == check.users,
        user_looked_up(check, servers).items == check.items,
        item_looked_up(check, mapped).users == check.users,
        item_looked_up(check, mapped).items == check.items,
        item_looked_up(check, mapped).known == check.known,
{
}

/// No user is looked up twice: the next user is one that was not looked up yet.
pub proof fn law_no_user_is_looked_up_twice(check: AccessCheckView, servers: Seq<ServerId>)
    requires
        awaits_user(check),
        0 <= check.next_user,
    ensures
        ({
            let next = user_looked_up(check, Ok(Some(servers)));
            next.next_user < next.users.len() ==> forall|k: int|
                0 <= k < next.known.len() ==> (#[trigger] next.known[k]).user_id
                    != next.users[next.next_user]
        }),
{
    let next = user_looked_up(check, Ok(Some(servers)));
    lemma_next_is_unknown(check.users, next.known, check.next_user + 1);
}

proof fn lemma_next_is_unknown(users: Seq<Seq<char>>, known: Seq<UserServersView>, at: int)
    ensures
        next_unknown(users, known, at) < users.len() ==> !is_known(
            known,
            users[next_unknown(users, known, at)],
        ),
    decreases users.len() - at,
{
    if at < users.len() && is_known(known, users[at]) {
        lemma_next_is_unknown(users, known, at + 1);
    }
}

/// A check that is not settled waits for exactly one lookup: that of a user as long as one is left,
/// and then that of an item. A settled one waits for none.
pub proof fn law_checks_wait_for_one_lookup(check: AccessCheckView)
    ensures
        check.outcome is Some ==> !awaits_user(check) && !awaits_item(check),
        check.outcome is None && check.next_user < check.users.len() ==> awaits_user(check)
            && !awaits_item(check),
        check.outcome is None && check.next_user >= check.users.len() ==> awaits_item(check)
            && !awaits_user(check),
{
}

} // verus!
