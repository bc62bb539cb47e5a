//! Keeps the accounts of a user on all upstream servers in step.

use crate::text;
use vstd::prelude::*;
use vstd::string::*;

verus! {

/// What became of an account on a server.
#[derive(Debug, Clone, Copy, PartialEq, Eq, Structural)]
pub enum SyncStatus {
    Created,
    AlreadyExists,
    ExistsWithDifferentPassword,
    Failed,
    Skipped,
    Deleted,
    NotFound,
}

/// What became of an account on one server, and why.
#[derive(Debug)]
pub struct ServerSyncResult {
    pub server_name: String,
    pub status: SyncStatus,
    pub message: Option<String>,
}

/// What a result says.
pub struct ServerSyncResultView {
    pub server_name: Seq<char>,
    pub status: SyncStatus,
    pub message: Option<Seq<char>>,
}

impl View for ServerSyncResult {
    type V = ServerSyncResultView;

    open spec fn view(&self) -> ServerSyncResultView {
        ServerSyncResultView {
            server_name: self.server_name@,
            status: self.status,
            message: text::optional_string(self.message),
        }
    }
}

/// What the results say.
pub open spec fn result_views(results: Seq<ServerSyncResult>) -> Seq<ServerSyncResultView> {
    results.map_values(|result: ServerSyncResult| result@)
}

impl Clone for ServerSyncResult {
    fn clone(&self) -> (r: Self)
        ensures
            r@ == self@,
    {
        let message = match &self.message {
            Some(message) => Some(message.clone()),
            None => None,
        };
        ServerSyncResult { server_name: self.server_name.clone(), status: self.status, message }
    }
}

/// What is done to the account of a user on all servers.
#[derive(Debug, Clone, Copy, PartialEq, Eq, Structural)]
pub enum FederatedTask {
    /// It is created where it is missing, and mapped to the local user.
    Sync,
    /// It is deleted.
    Delete,
}

/// A user of an upstream server.
pub struct RemoteUser {
    pub id: String,
    pub name: String,
}

/// What has to be done next on one server.
pub enum FederatedStep {
    /// Read the credentials of the administrator.
    GetAdmin,
    /// Decrypt the password of the administrator.
    DecryptAdminPassword,
    /// Create a client for the administrator.
    CreateClient,
    /// Log the administrator in.
    AuthenticateAdmin,
    /// List the users of the server.
    ListUsers,
    /// Create a client for the user.
    CreateUserClient,
    /// Log the user in with the given password.
    AuthenticateUser,
    /// Create the user with the given password.
    CreateUser,
    /// Delete the user with this identifier.
    DeleteUser { id: String },
    /// Map the account to the local user; the status is what to report if that succeeds.
    AddMapping { status: SyncStatus },
}

/// What came of a step. Errors are given by what they say.
pub enum FederatedEvent {
    /// Whether there are credentials of an administrator.
    Admin(Result<bool, String>),
    /// Whether the password could be decrypted.
    AdminPassword(bool),
    Client(Result<(), String>),
    AdminLogin(Result<(), String>),
    Users(Result<Vec<RemoteUser>, String>),
    /// Whether a client for the user could be created.
    UserClient(bool),
    /// Whether the user could log in.
    UserLogin(bool),
    UserCreated(Result<(), String>),
    UserDeleted(Result<(), String>),
    MappingAdded(Result<(), String>),
}

/// What follows from the outcome of a step on one server.
pub enum FederatedDecision {
    /// Go on with another step on the server.
    Continue(FederatedStep),
    /// Report a result and leave the server.
    Report(SyncStatus, Option<String>),
    /// Leave the server without a result.
    Leave,
}

/// Whether some user has a name, letters compared without regard to ASCII case.
pub open spec fn has_name(user: RemoteUser, name: Seq<char>) -> bool {
    text::ascii_lower_all(user.name@) == text::ascii_lower_all(name)
}

/// The first user with a name.
pub open spec fn first_named(users: Seq<RemoteUser>, name: Seq<char>) -> Option<RemoteUser>
    decreases users.len(),
{
    if users.len() == 0 {
        None
    } else if has_name(users[0], name) {
        Some(users[0])
    } else {
        first_named(users.skip(1), name)
    }
}

/// Whether a decision is to report a status with a message.
pub open spec fn reports(decision: FederatedDecision, status: SyncStatus, message: Seq<char>) -> bool {
    decision matches FederatedDecision::Report(s, Some(text)) && s == status && text@ == message
}

/// Whether a decision is to report a status without a message.
pub open spec fn reports_silently(decision: FederatedDecision, status: SyncStatus) -> bool {
    decision matches FederatedDecision::Report(s, None) && s == status
}

/// Whether a decision follows from the outcome of a step.
pub open spec fn follows(
    task: FederatedTask,
    username: Seq<char>,
    step: FederatedStep,
    event: FederatedEvent,
    decision: FederatedDecision,
) -> bool {
    match (step, event) {
        (FederatedStep::GetAdmin, FederatedEvent::Admin(Ok(configured))) => if configured {
            decision matches FederatedDecision::Continue(FederatedStep::DecryptAdminPassword)
        } else {
            reports(decision, SyncStatus::Skipped, "No admin credentials"@)
        },
        (FederatedStep::GetAdmin, FederatedEvent::Admin(Err(error))) => reports(
            decision,
            SyncStatus::Failed,
            "Failed to get admin creds: "@ + error@,
        ),
        (FederatedStep::DecryptAdminPassword, FederatedEvent::AdminPassword(decrypted)) => {
            if decrypted {
                decision matches FederatedDecision::Continue(FederatedStep::CreateClient)
            } else {
                reports(decision, SyncStatus::Failed, "Failed to decrypt admin password"@)
            }
        },
        (FederatedStep::CreateClient, FederatedEvent::Client(Ok(_))) => {
            decision matches FederatedDecision::Continue(FederatedStep::AuthenticateAdmin)
        },
        (FederatedStep::CreateClient, FederatedEvent::Client(Err(error))) => reports(
            decision,
            SyncStatus::Failed,
            "Client error: "@ + error@,
        ),
        (FederatedStep::AuthenticateAdmin, FederatedEvent::AdminLogin(Ok(_))) => {
            decision matches FederatedDecision::Continue(FederatedStep::ListUsers)
        },
        (FederatedStep::AuthenticateAdmin, FederatedEvent::AdminLogin(Err(error))) => reports(
            decision,
            SyncStatus::Failed,
            "Admin auth failed: "@ + error@,
        ),
        (FederatedStep::ListUsers, FederatedEvent::Users(Ok(users))) => {
            match (task, first_named(users@, username)) {
                (FederatedTask::Sync, Some(_)) => decision matches FederatedDecision::Continue(
                    FederatedStep::CreateUserClient,
                ),
                (FederatedTask::Sync, None) => decision matches FederatedDecision::Continue(
                    FederatedStep::CreateUser,
                ),
                (FederatedTask::Delete, Some(user)) => {
                    decision matches FederatedDecision::Continue(FederatedStep::DeleteUser { id })
                        && id@ == user.id@
                },
                (FederatedTask::Delete, None) => reports_silently(decision, SyncStatus::NotFound),
            }
        },
        (FederatedStep::ListUsers, FederatedEvent::Users(Err(error))) => reports(
            decision,
            SyncStatus::Failed,
            "Failed to list users: "@ + error@,
        ),
        (FederatedStep::CreateUserClient, FederatedEvent::UserClient(created)) => if created {
            decision matches FederatedDecision::Continue(FederatedStep::AuthenticateUser)
        } else {
            decision is Leave
        },
        (FederatedStep::AuthenticateUser, FederatedEvent::UserLogin(accepted)) => if accepted {
            decision matches FederatedDecision::Continue(FederatedStep::AddMapping { status })
                && status == SyncStatus::AlreadyExists
        } else {
            reports(
                decision,
                SyncStatus::ExistsWithDifferentPassword,
                "User exists with different password"@,
            )
        },
        (FederatedStep::CreateUser, FederatedEvent::UserCreated(Ok(_))) => {
            decision matches FederatedDecision::Continue(FederatedStep::AddMapping { status })
                && status == SyncStatus::Created
        },
        (FederatedStep::CreateUser, FederatedEvent::UserCreated(Err(error))) => reports(
            decision,
            SyncStatus::Failed,
            "Sync failed: "@ + error@,
        ),
        (FederatedStep::DeleteUser { .. }, FederatedEvent::UserDeleted(Ok(_))) => reports_silently(
            decision,
            SyncStatus::Deleted,
        ),
        (FederatedStep::DeleteUser { .. }, FederatedEvent::UserDeleted(Err(error))) => reports(
            decision,
            SyncStatus::Failed,
            "Delete failed: "@ + error@,
        ),
        (FederatedStep::AddMapping { status }, FederatedEvent::MappingAdded(Ok(_))) => {
            reports_silently(decision, status)
        },
        (FederatedStep::AddMapping { .. }, FederatedEvent::MappingAdded(Err(error))) => reports(
            decision,
            SyncStatus::Failed,
            "Failed to save local mapping: "@ + error@,
        ),
        (step, _) => decision == FederatedDecision::Continue(step),
    }
}

/// The place of the first user with a name.
fn find_user(users: &Vec<RemoteUser>, name: &str) -> (r: Option<usize>)
    ensures
        match r {
            Some(i) => i < users.len() && first_named(users@, name@) == Some(users[i as int]),
            None => first_named(users@, name@) is None,
        },
{
    let mut i: usize = 0;
    assert(users@.skip(0) =~= users@);
    while i < users.len()
        invariant
            i <= users.len(),
            first_named(users@, name@) == first_named(users@.skip(i as int), name@),
        decreases users.len() - i,
    {
        assert(users@.skip(i as int).skip(1) =~= users@.skip(i + 1));
        if text::eq_ignore_ascii_case(users[i].name.as_str(), name) {
            return Some(i);
        }
        i = i + 1;
    }
    None
}

/// A decision to report a failure.
fn failed(head: &str, error: &String) -> (r: FederatedDecision)
    ensures
        reports(r, SyncStatus::Failed, head@ + error@),
{
    FederatedDecision::Report(SyncStatus::Failed, Some(head.to_owned().concat(error.as_str())))
}

/// Decides what follows from the outcome of a step on one server.
pub fn decide(
    task: FederatedTask,
    username: &str,
    step: FederatedStep,
    event: &FederatedEvent,
) -> (r: FederatedDecision)
    ensures
        follows(task, username@, step, *event, r),
{
    match (step, event) {
        (FederatedStep::GetAdmin, FederatedEvent::Admin(Ok(configured))) => if *configured {
            FederatedDecision::Continue(FederatedStep::DecryptAdminPassword)
        } else {
            FederatedDecision::Report(
                SyncStatus::Skipped,
                Some("No admin credentials".to_owned()),
            )
        },
        (FederatedStep::GetAdmin, FederatedEvent::Admin(Err(error))) => failed(
            "Failed to get admin creds: ",
            error,
        ),
        (FederatedStep::DecryptAdminPassword, FederatedEvent::AdminPassword(decrypted)) => {
            if *decrypted {
                FederatedDecision::Continue(FederatedStep::CreateClient)
            } else {
                FederatedDecision::Report(
                    SyncStatus::Failed,
                    Some("Failed to decrypt admin password".to_owned()),
                )
            }
        },
        (FederatedStep::CreateClient, FederatedEvent::Client(Ok(_))) => {
            FederatedDecision::Continue(FederatedStep::AuthenticateAdmin)
        },
        (FederatedStep::CreateClient, FederatedEvent::Client(Err(error))) => failed(
            "Client error: ",
            error,
        ),
        (FederatedStep::AuthenticateAdmin, FederatedEvent::AdminLogin(Ok(_))) => {
            FederatedDecision::Continue(FederatedStep::ListUsers)
        },
        (FederatedStep::AuthenticateAdmin, FederatedEvent::AdminLogin(Err(error))) => failed(
            "Admin auth failed: ",
            error,
        ),
        (FederatedStep::ListUsers, FederatedEvent::Users(Ok(users))) => {
            match (task, find_user(users, username)) {
                (FederatedTask::Sync, Some(_)) => FederatedDecision::Continue(
                    FederatedStep::CreateUserClient,
                ),
                (FederatedTask::Sync, None) => FederatedDecision::Continue(
                    FederatedStep::CreateUser,
                ),
                (FederatedTask::Delete, Some(i)) => FederatedDecision::Continue(
                    FederatedStep::DeleteUser { id: users[i].id.clone() },
                ),
                (FederatedTask::Delete, None) => FederatedDecision::Report(
                    SyncStatus::NotFound,
                    None,
                ),
            }
        },
        (FederatedStep::ListUsers, FederatedEvent::Users(Err(error))) => failed(
            "Failed to list users: ",
            error,
        ),
        (FederatedStep::CreateUserClient, FederatedEvent::UserClient(created)) => if *created {
            FederatedDecision::Continue(FederatedStep::AuthenticateUser)
        } else {
            FederatedDecision::Leave
        },
        (FederatedStep::AuthenticateUser, FederatedEvent::UserLogin(accepted)) => if *accepted {
            FederatedDecision::Continue(
                FederatedStep::AddMapping { status: SyncStatus::AlreadyExists },
            )
        } else {
            FederatedDecision::Report(
                SyncStatus::ExistsWithDifferentPassword,
                Some("User exists with different password".to_owned()),
            )
        },
        (FederatedStep::CreateUser, FederatedEvent::UserCreated(Ok(_))) => {
            FederatedDecision::Continue(FederatedStep::AddMapping { status: SyncStatus::Created })
        },
        (FederatedStep::CreateUser, FederatedEvent::UserCreated(Err(error))) => failed(
            "Sync failed: ",
            error,
        ),
        (FederatedStep::DeleteUser { .. }, FederatedEvent::UserDeleted(Ok(_))) => {
            FederatedDecision::Report(SyncStatus::Deleted, None)
        },
        (FederatedStep::DeleteUser { .. }, FederatedEvent::UserDeleted(Err(error))) => failed(
            "Delete failed: ",
            error,
        ),
        (FederatedStep::AddMapping { status }, FederatedEvent::MappingAdded(Ok(_))) => {
            FederatedDecision::Report(status, None)
        },
        (FederatedStep::AddMapping { .. }, FederatedEvent::MappingAdded(Err(error))) => failed(
            "Failed to save local mapping: ",
            error,
        ),
        (step, _) => FederatedDecision::Continue(step),
    }
}

/// A run over all servers.
pub struct FederatedRun {
    task: FederatedTask,
    username: String,
    servers: Vec<String>,
    at: usize,
    step: FederatedStep,
    results: Vec<ServerSyncResult>,
}

/// The state of a run.
pub struct FederatedRunView {
    pub task: FederatedTask,
    pub username: Seq<char>,
    /// The names of all servers.
    pub servers: Seq<Seq<char>>,
    /// The place of the current server.
    pub at: int,
    /// What has to be done on the current server.
    pub step: FederatedStep,
    pub results: Seq<ServerSyncResultView>,
}

impl View for FederatedRun {
    type V = FederatedRunView;

    closed spec fn view(&self) -> FederatedRunView {
        FederatedRunView {
            task: self.task,
            username: self.username@,
            servers: text::string_views(self.servers@),
            at: self.at as int,
            step: self.step,
            results: result_views(self.results@),
        }
    }
}

/// The names of the servers that were listed, none where they could not be.
pub open spec fn listed(servers: Option<Vec<String>>) -> Seq<Seq<char>> {
    match servers {
        Some(servers) => text::string_views(servers@),
        None => Seq::empty(),
    }
}

/// The state of a run on a list of servers that has not begun.
pub open spec fn begins(
    run: FederatedRunView,
    task: FederatedTask,
    username: Seq<char>,
    servers: Seq<Seq<char>>,
) -> bool {
    &&& run.task == task
    &&& run.username == username
    &&& run.servers == servers
    &&& run.at == 0
    &&& run.step is GetAdmin
    &&& run.results.len() == 0
}

/// Whether `next` is the state of a run after the outcome of the current step led to a decision.
pub open spec fn takes(
    run: FederatedRunView,
    decision: FederatedDecision,
    next: FederatedRunView,
) -> bool {
    &&& next.task == run.task
    &&& next.username == run.username
    &&& next.servers == run.servers
    &&& match decision {
        FederatedDecision::Continue(step) => next.at == run.at && next.step == step && next.results
            == run.results,
        FederatedDecision::Report(status, message) => next.at == run.at + 1 && next.step is GetAdmin
            && next.results == run.results.push(
            ServerSyncResultView {
                server_name: run.servers[run.at],
                status,
                message: text::optional_string(message),
            },
        ),
        FederatedDecision::Leave => next.at == run.at + 1 && next.step is GetAdmin && next.results
            == run.results,
    }
}

/// Whether `next` is the state of a run after an event.
pub open spec fn advances(
    run: FederatedRunView,
    event: FederatedEvent,
    next: FederatedRunView,
) -> bool {
    if run.at >= run.servers.len() {
        next == run
    } else {
        exists|decision: FederatedDecision| #[trigger]
            follows(run.task, run.username, run.step, event, decision) && takes(run, decision, next)
    }
}

impl FederatedRun {
    #[verifier::type_invariant]
    spec fn stays_among_the_servers(&self) -> bool {
        self.at <= self.servers.len()
    }

    fn start(task: FederatedTask, username: &str, servers: Option<Vec<String>>) -> (r: Self)
        ensures
            begins(r@, task, username@, listed(servers)),
    {
        let names = match servers {
            Some(servers) => servers,
            None => Vec::new(),
        };
        let run = FederatedRun {
            task,
            username: username.to_owned(),
            servers: names,
            at: 0,
            step: FederatedStep::GetAdmin,
            results: Vec::new(),
        };
        assert(run@.servers =~= listed(servers));
        run
    }

    /// The place of the current server and what has to be done on it, or nothing at the end.
    pub fn current(&self) -> (r: Option<(usize, &FederatedStep)>)
        ensures
            match r {
                Some((at, step)) => at < self@.servers.len() && at == self@.at && *step
                    == self@.step,
                None => self@.at >= self@.servers.len(),
            },
    {
        if self.at < self.servers.len() {
            Some((self.at, &self.step))
        } else {
            None
        }
    }

    /// Goes on with the outcome of the current step.
    pub fn advance(self, event: &FederatedEvent) -> (r: Self)
        ensures
            advances(self@, *event, r@),
    {
        proof {
            use_type_invariant(&self);
        }
        if self.at >= self.servers.len() {
            return self;
        }
        let ghost before = self@;
        let FederatedRun { task, username, servers, at, step, results } = self;
        let decision = decide(task, username.as_str(), step, event);
        let ghost decided = decision;
        let mut results: Vec<ServerSyncResult> = results;
        match decision {
            FederatedDecision::Continue(step) => {
                let next = FederatedRun { task, username, servers, at, step, results };
                assert(takes(before, decided, next@));
                next
            },
            FederatedDecision::Report(status, message) => {
                let ghost old_results = results@;
                results.push(
                    ServerSyncResult { server_name: servers[at].clone(), status, message },
                );
                proof {
                    assert(result_views(results@) =~= result_views(old_results).push(
                        results@[old_results.len() as int]@,
                    ));
                }
                let next = FederatedRun {
                    task,
                    username,
                    servers,
                    at: at + 1,
                    step: FederatedStep::GetAdmin,
                    results,
                };
                assert(takes(before, decided, next@));
                next
            },
            FederatedDecision::Leave => {
                let next = FederatedRun {
                    task,
                    username,
                    servers,
                    at: at + 1,
                    step: FederatedStep::GetAdmin,
                    results,
                };
                assert(takes(before, decided, next@));
                next
            },
        }
    }

    /// The results so far.
    pub fn into_results(self) -> (r: Vec<ServerSyncResult>)
        ensures
            result_views(r@) == self@.results,
    {
        self.results
    }
}

/// The rules by which accounts are kept in step on all servers.
pub struct FederatedUserService {}

impl FederatedUserService {
    /// Begins to create and map the account of a user on all servers, whose names are given. Where
    /// the servers could not be listed, nothing is done.
    pub fn sync_user_to_all_servers(username: &str, servers: Option<Vec<String>>) -> (r:
        FederatedRun)
        ensures
            begins(r@, FederatedTask::Sync, username@, listed(servers)),
    {
        FederatedRun::start(FederatedTask::Sync, username, servers)
    }

    /// Begins to delete the account of a user on all servers, whose names are given. Where the
    /// servers could not be listed, nothing is done.
    pub fn delete_user_from_all_servers(username: &str, servers: Option<Vec<String>>) -> (r:
        FederatedRun)
        ensures
            begins(r@, FederatedTask::Delete, username@, listed(servers)),
    {
        FederatedRun::start(FederatedTask::Delete, username, servers)
    }
}

/// Whether results are of different servers, in the order of the servers.
pub open spec fn in_server_order(
    results: Seq<ServerSyncResultView>,
    servers: Seq<Seq<char>>,
) -> bool
    decreases servers.len(),
{
    if results.len() == 0 {
        true
    } else if servers.len() == 0 {
        false
    } else {
        ||| results.last().server_name == servers.last() && in_server_order(
            results.drop_last(),
            servers.drop_last(),
        )
        ||| in_server_order(results, servers.drop_last())
    }
}

/// Whether the results of a run are of the servers that it has left.
pub open spec fn is_orderly(run: FederatedRunView) -> bool {
    &&& 0 <= run.at <= run.servers.len()
    &&& in_server_order(run.results, run.servers.take(run.at))
}

/// A run begins orderly.
pub proof fn law_run_begins_orderly(
    run: FederatedRunView,
    task: FederatedTask,
    username: Seq<char>,
    servers: Seq<Seq<char>>,
)
    requires
        begins(run, task, username, servers),
    ensures
        is_orderly(run),
{
}

/// A run reports at most one result for each server, in the order of the servers.
pub proof fn law_one_result_per_server(
    run: FederatedRunView,
    event: FederatedEvent,
    next: FederatedRunView,
)
    requires
        is_orderly(run),
        advances(run, event, next),
    ensures
        is_orderly(next),
        run.results.is_prefix_of(next.results),
{
    if run.at < run.servers.len() {
        let decision = choose|decision: FederatedDecision| #[trigger]
            follows(run.task, run.username, run.step, event, decision) && takes(
                run,
                decision,
                next,
            );
        let left = run.servers.take(run.at + 1);
        assert(left.drop_last() =~= run.servers.take(run.at));
        match decision {
            FederatedDecision::Continue(_) => {},
            FederatedDecision::Report(_, _) => {
                assert(next.results.drop_last() =~= run.results);
            },
            FederatedDecision::Leave => {},
        }
    }
}

/// Whether the client for the user could not be created.
pub open spec fn loses_user_client(step: FederatedStep, event: FederatedEvent) -> bool {
    step is CreateUserClient && event == FederatedEvent::UserClient(false)
}

/// Whether a run has exactly one result for each server that it has left, in their order.
pub open spec fn is_complete(run: FederatedRunView) -> bool {
    &&& 0 <= run.at <= run.servers.len()
    &&& run.results.len() == run.at
    &&& forall|i: int|
        0 <= i < run.at ==> (#[trigger] run.results[i]).server_name == run.servers[i]
}

/// A server is left without a result only where the client for the user could not be created.
pub proof fn law_results_stay_complete(
    run: FederatedRunView,
    event: FederatedEvent,
    next: FederatedRunView,
)
    requires
        is_complete(run),
        run.at < run.servers.len() ==> answers(run.step, event),
        advances(run, event, next),
    ensures
        is_complete(next) <==> run.at >= run.servers.len() || !loses_user_client(run.step, event),
{
}

/// Whether a run goes through some states, one after each event, and each event before its end is
/// an outcome of the current step.
pub open spec fn passes_through(
    states: Seq<FederatedRunView>,
    events: Seq<FederatedEvent>,
) -> bool {
    &&& states.len() == events.len() + 1
    &&& forall|i: int| 0 <= i < events.len() ==> #[trigger] is_step_of(states, events, i)
}

/// Whether the step at a place of a run is one from its state to the next.
pub open spec fn is_step_of(
    states: Seq<FederatedRunView>,
    events: Seq<FederatedEvent>,
    i: int,
) -> bool {
    &&& advances(states[i], events[i], states[i + 1])
    &&& states[i].at < states[i].servers.len() ==> answers(states[i].step, events[i])
}

/// A run that has come to its end has exactly one result for each server, in their order, if the
/// client for the user could be created wherever it was asked for. A run that deletes accounts
/// never asks for it.
pub proof fn law_finished_runs_report_every_server(
    states: Seq<FederatedRunView>,
    events: Seq<FederatedEvent>,
    task: FederatedTask,
    username: Seq<char>,
    servers: Seq<Seq<char>>,
)
    requires
        passes_through(states, events),
        begins(states[0], task, username, servers),
        task == FederatedTask::Delete || forall|i: int|
            0 <= i < events.len() ==> !loses_user_client(states[i].step, #[trigger] events[i]),
    ensures
        is_complete(states.last()),
        states.last().servers == servers,
        states.last().at >= servers.len() ==> {
            &&& states.last().results.len() == servers.len()
            &&& forall|i: int|
                0 <= i < servers.len() ==> (#[trigger] states.last().results[i]).server_name
                    == servers[i]
        },
        fits(task, states.last().step),
        states.last().task == task,
    decreases events.len(),
{
    if events.len() > 0 {
        let n = events.len() - 1;
        assert(passes_through(states.drop_last(), events.drop_last())) by {
            assert forall|i: int| 0 <= i < n implies #[trigger] is_step_of(
                states.drop_last(),
                events.drop_last(),
                i,
            ) by {
                assert(is_step_of(states, events, i));
            }
        }
        law_finished_runs_report_every_server(
            states.drop_last(),
            events.drop_last(),
            task,
            username,
            servers,
        );
        assert(is_step_of(states, events, n));
        assert(!loses_user_client(states[n].step, events[n]));
        law_results_stay_complete(states[n], events[n], states[n + 1]);
        law_tasks_do_not_mix(states[n], events[n], states[n + 1]);
    }
}

/// How many steps may follow on the current server.
pub open spec fn steps_left(step: FederatedStep) -> int {
    match step {
        FederatedStep::GetAdmin => 8,
        FederatedStep::DecryptAdminPassword => 7,
        FederatedStep::CreateClient => 6,
        FederatedStep::AuthenticateAdmin => 5,
        FederatedStep::ListUsers => 4,
        FederatedStep::CreateUserClient => 3,
        FederatedStep::AuthenticateUser => 2,
        FederatedStep::CreateUser => 2,
        FederatedStep::DeleteUser { .. } => 1,
        FederatedStep::AddMapping { .. } => 1,
    }
}

/// Whether an event is an outcome of a step.
pub open spec fn answers(step: FederatedStep, event: FederatedEvent) -> bool {
    match step {
        FederatedStep::GetAdmin => event is Admin,
        FederatedStep::DecryptAdminPassword => event is AdminPassword,
        FederatedStep::CreateClient => event is Client,
        FederatedStep::AuthenticateAdmin => event is AdminLogin,
        FederatedStep::ListUsers => event is Users,
        FederatedStep::CreateUserClient => event is UserClient,
        FederatedStep::AuthenticateUser => event is UserLogin,
        FederatedStep::CreateUser => event is UserCreated,
        FederatedStep::DeleteUser { .. } => event is UserDeleted,
        FederatedStep::AddMapping { .. } => event is MappingAdded,
    }
}

/// How far a run is from its end.
pub open spec fn run_left(run: FederatedRunView) -> int {
    if run.at >= run.servers.len() {
        0
    } else {
        8 * (run.servers.len() - run.at - 1) + steps_left(run.step)
    }
}

/// Each outcome brings a run nearer to its end: it takes at most eight steps on each server.
pub proof fn law_run_ends(run: FederatedRunView, event: FederatedEvent, next: FederatedRunView)
    requires
        0 <= run.at < run.servers.len(),
        answers(run.step, event),
        advances(run, event, next),
    ensures
        0 <= run_left(next) < run_left(run),
{
}

/// Only the steps of its own task can come up in a run.
pub open spec fn fits(task: FederatedTask, step: FederatedStep) -> bool {
    match task {
        FederatedTask::Sync => !(step is DeleteUser),
        FederatedTask::Delete => !(step is CreateUserClient || step is AuthenticateUser
            || step is CreateUser || step is AddMapping),
    }
}

/// A run that creates accounts deletes none, and one that deletes accounts creates, maps and logs
/// in none.
pub proof fn law_tasks_do_not_mix(
    run: FederatedRunView,
    event: FederatedEvent,
    next: FederatedRunView,
)
    requires
        fits(run.task, run.step),
        advances(run, event, next),
    ensures
        next.task == run.task,
        fits(next.task, next.step),
{
}

/// An account is created only where no user of the server has the name, and deleted only where it
/// is the first one with the name.
pub proof fn law_only_accounts_with_the_name_are_touched(
    task: FederatedTask,
    username: Seq<char>,
    step: FederatedStep,
    event: FederatedEvent,
    decision: FederatedDecision,
)
    requires
        follows(task, username, step, event, decision),
        answers(step, event),
    ensures
        decision matches FederatedDecision::Continue(FederatedStep::CreateUser) ==> (
        event matches FederatedEvent::Users(Ok(users)) && forall|i: int|
            0 <= i < users.len() ==> !has_name(#[trigger] users[i], username)),
        decision matches FederatedDecision::Continue(FederatedStep::DeleteUser { id }) ==> (
        event matches FederatedEvent::Users(Ok(users)) && exists|i: int|
            0 <= i < users.len() && has_name(#[trigger] users[i], username) && users[i].id@ == id@
                && forall|j: int| 0 <= j < i ==> !has_name(#[trigger] users[j], username)),
{
    if let FederatedEvent::Users(Ok(users)) = event {
        lemma_first_named(users@, username);
    }
}

proof fn lemma_first_named(users: Seq<RemoteUser>, name: Seq<char>)
    ensures
        match first_named(users, name) {
            Some(user) => exists|i: int|
                0 <= i < users.len() && has_name(#[trigger] users[i], name) && users[i] == user
                    && forall|j: int| 0 <= j < i ==> !has_name(#[trigger] users[j], name),
            None => forall|i: int| 0 <= i < users.len() ==> !has_name(#[trigger] users[i], name),
        },
    decreases users.len(),
{
    if users.len() > 0 && !has_name(users[0], name) {
        let rest = users.skip(1);
        lemma_first_named(rest, name);
        match first_named(rest, name) {
            Some(user) => {
                let k = choose|k: int|
                    0 <= k < rest.len() && has_name(#[trigger] rest[k], name) && rest[k] == user
                        && forall|j: int| 0 <= j < k ==> !has_name(#[trigger] rest[j], name);
                assert(users[k + 1] == user);
                assert forall|j: int| 0 <= j < k + 1 implies !has_name(
                    #[trigger] users[j],
                    name,
                ) by {
                    if j > 0 {
                        assert(rest[j - 1] == users[j]);
                    }
                }
            },
            None => {
                assert forall|i: int| 0 <= i < users.len() implies !has_name(
                    #[trigger] users[i],
                    name,
                ) by {
                    if i > 0 {
                        assert(rest[i - 1] == users[i]);
                    }
                }
            },
        }
    }
}

/// An account is mapped to the local user only once the server has accepted the user's password
/// or has created the account.
pub proof fn law_mapped_only_with_the_right_password(
    task: FederatedTask,
    username: Seq<char>,
    step: FederatedStep,
    event: FederatedEvent,
    decision: FederatedDecision,
)
    requires
        follows(task, username, step, event, decision),
        answers(step, event),
    ensures
        decision matches FederatedDecision::Continue(FederatedStep::AddMapping { status }) ==> {
            ||| status == SyncStatus::AlreadyExists && event == FederatedEvent::UserLogin(true)
            ||| status == SyncStatus::Created && event matches FederatedEvent::UserCreated(Ok(_))
        },
{
}

/// A server is skipped exactly where it has no credentials of an administrator.
pub proof fn law_skipped_without_admin(
    task: FederatedTask,
    username: Seq<char>,
    step: FederatedStep,
    event: FederatedEvent,
    decision: FederatedDecision,
)
    requires
        follows(task, username, step, event, decision),
        answers(step, event),
        step matches FederatedStep::AddMapping { status } ==> status != SyncStatus::Skipped,
    ensures
        (decision matches FederatedDecision::Report(status, _) && status == SyncStatus::Skipped)
            <==> event == FederatedEvent::Admin(Ok(false)),
{
}

/// Whether a run left its current server with a result.
pub open spec fn has_left_with(
    run: FederatedRunView,
    next: FederatedRunView,
    status: SyncStatus,
    message: Option<Seq<char>>,
) -> bool {
    &&& next.at == run.at + 1
    &&& next.step == FederatedStep::GetAdmin
    &&& next.results.len() == run.results.len() + 1
    &&& next.results.last().server_name == run.servers[run.at]
    &&& next.results.last().status == status
    &&& next.results.last().message == message
    &&& forall|i: int|
        0 <= i < run.results.len() ==> #[trigger] next.results[i] == run.results[i]
}

/// Whether a run stays on its current server and has another step to do there.
pub open spec fn goes_on_with(
    run: FederatedRunView,
    next: FederatedRunView,
    step: FederatedStep,
) -> bool {
    &&& next.at == run.at
    &&& next.step == step
    &&& next.results == run.results
}

/// Every error on a server ends the work there with a failure that tells the error, and so does a
/// password of the administrator that cannot be decrypted.
pub proof fn law_failures_are_reported(
    run: FederatedRunView,
    event: FederatedEvent,
    next: FederatedRunView,
)
    requires
        0 <= run.at < run.servers.len(),
        advances(run, event, next),
    ensures
        run.step is GetAdmin ==> (event matches FederatedEvent::Admin(Err(error)) ==> has_left_with(
            run,
            next,
            SyncStatus::Failed,
            Some("Failed to get admin creds: "@ + error@),
        )),
        run.step is DecryptAdminPassword && event == FederatedEvent::AdminPassword(false)
            ==> has_left_with(
            run,
            next,
            SyncStatus::Failed,
            Some("Failed to decrypt admin password"@),
        ),
        run.step is CreateClient ==> (event matches FederatedEvent::Client(Err(error))
            ==> has_left_with(
            run,
            next,
            SyncStatus::Failed,
            Some("Client error: "@ + error@),
        )),
        run.step is AuthenticateAdmin ==> (event matches FederatedEvent::AdminLogin(Err(error))
            ==> has_left_with(
            run,
            next,
            SyncStatus::Failed,
            Some("Admin auth failed: "@ + error@),
        )),
        run.step is ListUsers ==> (event matches FederatedEvent::Users(Err(error))
            ==> has_left_with(
            run,
            next,
            SyncStatus::Failed,
            Some("Failed to list users: "@ + error@),
        )),
        run.step is CreateUser ==> (event matches FederatedEvent::UserCreated(Err(error))
            ==> has_left_with(
            run,
            next,
            SyncStatus::Failed,
            Some("Sync failed: "@ + error@),
        )),
        run.step is DeleteUser ==> (event matches FederatedEvent::UserDeleted(Err(error))
            ==> has_left_with(
            run,
            next,
            SyncStatus::Failed,
            Some("Delete failed: "@ + error@),
        )),
        run.step is AddMapping ==> (event matches FederatedEvent::MappingAdded(Err(error))
            ==> has_left_with(
            run,
            next,
            SyncStatus::Failed,
            Some("Failed to save local mapping: "@ + error@),
        )),
{
}

/// The administrator is logged in before the users are listed, and a server that knows no
/// administrator is left at once.
pub proof fn law_administrators_log_in_first(
    run: FederatedRunView,
    event: FederatedEvent,
    next: FederatedRunView,
)
    requires
        0 <= run.at < run.servers.len(),
        advances(run, event, next),
    ensures
        run.step is GetAdmin && event == FederatedEvent::Admin(Ok(true)) ==> goes_on_with(
            run,
            next,
            FederatedStep::DecryptAdminPassword,
        ),
        run.step is GetAdmin && event == FederatedEvent::Admin(Ok(false)) ==> has_left_with(
            run,
            next,
            SyncStatus::Skipped,
            Some("No admin credentials"@),
        ),
        run.step is DecryptAdminPassword && event == FederatedEvent::AdminPassword(true)
            ==> goes_on_with(run, next, FederatedStep::CreateClient),
        run.step is CreateClient && event == FederatedEvent::Client(Ok(())) ==> goes_on_with(
            run,
            next,
            FederatedStep::AuthenticateAdmin,
        ),
        run.step is AuthenticateAdmin && event == FederatedEvent::AdminLogin(Ok(()))
            ==> goes_on_with(run, next, FederatedStep::ListUsers),
{
}

/// Where a user of the server has the name, letters compared without regard to ASCII case, a run
/// that creates accounts logs the user in instead of creating an account, and one that deletes
/// accounts deletes that one, the first of them. Where none has it, the account is created, or
/// there is nothing to delete.
pub proof fn law_users_are_found_by_their_names(
    run: FederatedRunView,
    users: Vec<RemoteUser>,
    next: FederatedRunView,
)
    requires
        0 <= run.at < run.servers.len(),
        run.step is ListUsers,
        advances(run, FederatedEvent::Users(Ok(users)), next),
    ensures
        (forall|i: int|
            0 <= i < users.len() ==> text::ascii_lower_all((#[trigger] users[i]).name@)
                != text::ascii_lower_all(run.username)) ==> match run.task {
            FederatedTask::Sync => goes_on_with(run, next, FederatedStep::CreateUser),
            FederatedTask::Delete => has_left_with(run, next, SyncStatus::NotFound, None),
        },
        forall|i: int|
            #![trigger users[i]]
            {
                &&& 0 <= i < users.len()
                &&& text::ascii_lower_all(users[i].name@) == text::ascii_lower_all(run.username)
                &&& forall|j: int|
                    0 <= j < i ==> text::ascii_lower_all((#[trigger] users[j]).name@)
                        != text::ascii_lower_all(run.username)
            } ==> match run.task {
                FederatedTask::Sync => goes_on_with(run, next, FederatedStep::CreateUserClient),
                FederatedTask::Delete => next.step matches FederatedStep::DeleteUser { id } && id@
                    == users[i].id@ && goes_on_with(run, next, next.step),
            },
{
    let name = run.username;
    lemma_first_named(users@, name);
    assert forall|i: int|
        #![trigger users[i]]
        {
            &&& 0 <= i < users.len()
            &&& text::ascii_lower_all(users[i].name@) == text::ascii_lower_all(name)
            &&& forall|j: int|
                0 <= j < i ==> text::ascii_lower_all((#[trigger] users[j]).name@)
                    != text::ascii_lower_all(name)
        } implies match run.task {
        FederatedTask::Sync => goes_on_with(run, next, FederatedStep::CreateUserClient),
        FederatedTask::Delete => next.step matches FederatedStep::DeleteUser { id } && id@
            == users[i].id@ && goes_on_with(run, next, next.step),
    } by {
        assert(has_name(users@[i], name));
        assert forall|j: int| 0 <= j < i implies !has_name(#[trigger] users@[j], name) by {
            assert(users[j] == users@[j]);
        }
        assert(first_named(users@, name) == Some(users@[i]));
    }
    if forall|i: int|
        0 <= i < users.len() ==> text::ascii_lower_all((#[trigger] users[i]).name@)
            != text::ascii_lower_all(name) {
        assert forall|i: int| 0 <= i < users@.len() implies !has_name(#[trigger] users@[i], name) by {
            assert(users[i] == users@[i]);
        }
    }
}

/// An account that exists is mapped where its password is the user's, and one that was created is
/// mapped at once; the mapping then reports which of them it was. A password that is not accepted
/// and an account that was deleted are reported, and a server for which no client of the user could
/// be created is left without a result.
pub proof fn law_accounts_are_reported(
    run: FederatedRunView,
    event: FederatedEvent,
    next: FederatedRunView,
)
    requires
        0 <= run.at < run.servers.len(),
        advances(run, event, next),
    ensures
        run.step is CreateUserClient && event == FederatedEvent::UserClient(true) ==> goes_on_with(
            run,
            next,
            FederatedStep::AuthenticateUser,
        ),
        run.step is CreateUserClient && event == FederatedEvent::UserClient(false) ==> {
            &&& next.at == run.at + 1
            &&& next.step == FederatedStep::GetAdmin
            &&& next.results == run.results
        },
        run.step is AuthenticateUser && event == FederatedEvent::UserLogin(true) ==> goes_on_with(
            run,
            next,
            FederatedStep::AddMapping { status: SyncStatus::AlreadyExists },
        ),
        run.step is AuthenticateUser && event == FederatedEvent::UserLogin(false) ==> has_left_with(
            run,
            next,
            SyncStatus::ExistsWithDifferentPassword,
            Some("User exists with different password"@),
        ),
        run.step is CreateUser && event == FederatedEvent::UserCreated(Ok(())) ==> goes_on_with(
            run,
            next,
            FederatedStep::AddMapping { status: SyncStatus::Created },
        ),
        run.step is DeleteUser && event == FederatedEvent::UserDeleted(Ok(())) ==> has_left_with(
            run,
            next,
            SyncStatus::Deleted,
            None,
        ),
        run.step matches FederatedStep::AddMapping { status } ==> (event
            == FederatedEvent::MappingAdded(Ok(())) ==> has_left_with(run, next, status, None)),
{
}

/// An event that is no outcome of the current step changes nothing, nor does any event after the
/// last server; the task, the name and the servers never change.
pub proof fn law_other_events_leave_runs_alone(
    run: FederatedRunView,
    event: FederatedEvent,
    next: FederatedRunView,
)
    requires
        advances(run, event, next),
    ensures
        next.task == run.task,
        next.username == run.username,
        next.servers == run.servers,
        run.at >= run.servers.len() ==> next == run,
        !(run.step is GetAdmin && event is Admin) && !(run.step is DecryptAdminPassword
            && event is AdminPassword) && !(run.step is CreateClient && event is Client) && !(
        run.step is AuthenticateAdmin && event is AdminLogin) && !(run.step is ListUsers
            && event is Users) && !(run.step is CreateUserClient && event is UserClient) && !(
        run.step is AuthenticateUser && event is UserLogin) && !(run.step is CreateUser
            && event is UserCreated) && !(run.step is DeleteUser && event is UserDeleted) && !(
        run.step is AddMapping && event is MappingAdded) ==> next == run,
{
}

/// A run begins on the first of the servers that were listed, and is over at once where they could
/// not be listed.
pub proof fn law_runs_begin_on_the_first_server(
    run: FederatedRunView,
    task: FederatedTask,
    username: Seq<char>,
    servers: Option<Vec<String>>,
)
    requires
        begins(run, task, username, listed(servers)),
    ensures
        run.task == task,
        run.username == username,
        run.at == 0,
        run.step == FederatedStep::GetAdmin,
        run.results.len() == 0,
        servers is None ==> run.servers.len() == 0,
        servers matches Some(names) ==> run.servers.len() == names.len() && forall|i: int|
            0 <= i < names.len() ==> #[trigger] run.servers[i] == names[i]@,
{
}

} // verus!
