use jellyswarrm::federated_users::{
    decide, FederatedDecision, FederatedEvent, FederatedRun, FederatedStep, FederatedTask,
    FederatedUserService, RemoteUser, ServerSyncResult, SyncStatus,
};

fn user(id: &str, name: &str) -> RemoteUser {
    RemoteUser { id: id.to_string(), name: name.to_string() }
}

fn names(names: &[&str]) -> Option<Vec<String>> {
    Some(names.iter().map(|name| name.to_string()).collect())
}

fn run(mut run: FederatedRun, events: Vec<FederatedEvent>) -> Vec<ServerSyncResult> {
    for event in &events {
        assert!(run.current().is_some());
        run = run.advance(event);
    }
    assert!(run.current().is_none());
    run.into_results()
}

fn error<T>(text: &str) -> Result<T, String> {
    Err(text.to_string())
}

fn up_to_users(users: Vec<RemoteUser>) -> Vec<FederatedEvent> {
    vec![
        FederatedEvent::Admin(Ok(true)),
        FederatedEvent::AdminPassword(true),
        FederatedEvent::Client(Ok(())),
        FederatedEvent::AdminLogin(Ok(())),
        FederatedEvent::Users(Ok(users)),
    ]
}

fn one(events: Vec<FederatedEvent>, task: FederatedTask) -> (SyncStatus, Option<String>) {
    let servers = names(&["a"]);
    let begun = match task {
        FederatedTask::Sync => FederatedUserService::sync_user_to_all_servers("Bob", servers),
        FederatedTask::Delete => FederatedUserService::delete_user_from_all_servers("Bob", servers),
    };
    let results = run(begun, events);
    assert_eq!(results.len(), 1);
    assert_eq!(results[0].server_name, "a");
    let result = results[0].clone();
    (result.status, result.message)
}

#[test]
fn without_servers_there_are_no_results() {
    let begun = FederatedUserService::sync_user_to_all_servers("bob", None);
    assert!(run(begun, Vec::new()).is_empty());
    let begun = FederatedUserService::delete_user_from_all_servers("bob", names(&[]));
    assert!(run(begun, Vec::new()).is_empty());
}

#[test]
fn a_missing_account_is_created_and_mapped() {
    let mut events = up_to_users(vec![user("1", "alice")]);
    events.push(FederatedEvent::UserCreated(Ok(())));
    events.push(FederatedEvent::MappingAdded(Ok(())));
    assert_eq!(one(events, FederatedTask::Sync), (SyncStatus::Created, None));
}

#[test]
fn an_account_with_the_same_password_is_mapped() {
    let mut events = up_to_users(vec![user("1", "alice"), user("2", "BOB")]);
    events.push(FederatedEvent::UserClient(true));
    events.push(FederatedEvent::UserLogin(true));
    events.push(FederatedEvent::MappingAdded(Ok(())));
    assert_eq!(one(events, FederatedTask::Sync), (SyncStatus::AlreadyExists, None));
}

#[test]
fn an_account_with_another_password_is_left_alone() {
    let mut events = up_to_users(vec![user("2", "bob")]);
    events.push(FederatedEvent::UserClient(true));
    events.push(FederatedEvent::UserLogin(false));
    assert_eq!(
        one(events, FederatedTask::Sync),
        (
            SyncStatus::ExistsWithDifferentPassword,
            Some("User exists with different password".to_string())
        )
    );
}

#[test]
fn without_a_client_for_the_user_nothing_is_reported() {
    let mut events = up_to_users(vec![user("2", "bob")]);
    events.push(FederatedEvent::UserClient(false));
    let begun = FederatedUserService::sync_user_to_all_servers("bob", names(&["a"]));
    assert!(run(begun, events).is_empty());
}

#[test]
fn failures_are_reported_with_their_reason() {
    let failed = |text: &str| (SyncStatus::Failed, Some(text.to_string()));
    let start = |events: usize| {
        let mut all = up_to_users(Vec::new());
        all.truncate(events);
        all
    };
    for task in [FederatedTask::Sync, FederatedTask::Delete] {
        let events = vec![FederatedEvent::Admin(error("x"))];
        assert_eq!(one(events, task), failed("Failed to get admin creds: x"));
        let events = vec![FederatedEvent::Admin(Ok(false))];
        let skipped = (SyncStatus::Skipped, Some("No admin credentials".to_string()));
        assert_eq!(one(events, task), skipped);
        let mut events = start(1);
        events.push(FederatedEvent::AdminPassword(false));
        assert_eq!(one(events, task), failed("Failed to decrypt admin password"));
        let mut events = start(2);
        events.push(FederatedEvent::Client(error("x")));
        assert_eq!(one(events, task), failed("Client error: x"));
        let mut events = start(3);
        events.push(FederatedEvent::AdminLogin(error("x")));
        assert_eq!(one(events, task), failed("Admin auth failed: x"));
        let mut events = start(4);
        events.push(FederatedEvent::Users(error("x")));
        assert_eq!(one(events, task), failed("Failed to list users: x"));
    }
    let mut events = start(5);
    events.push(FederatedEvent::UserCreated(error("x")));
    assert_eq!(one(events, FederatedTask::Sync), failed("Sync failed: x"));
    let mut events = start(5);
    events.push(FederatedEvent::UserCreated(Ok(())));
    events.push(FederatedEvent::MappingAdded(error("x")));
    assert_eq!(one(events, FederatedTask::Sync), failed("Failed to save local mapping: x"));
    let mut events = up_to_users(vec![user("9", "bob")]);
    events.push(FederatedEvent::UserDeleted(error("x")));
    assert_eq!(one(events, FederatedTask::Delete), failed("Delete failed: x"));
}

#[test]
fn accounts_are_deleted_by_name() {
    let mut events = up_to_users(vec![user("9", "bob")]);
    events.push(FederatedEvent::UserDeleted(Ok(())));
    assert_eq!(one(events, FederatedTask::Delete), (SyncStatus::Deleted, None));
    let events = up_to_users(vec![user("9", "bobby")]);
    assert_eq!(one(events, FederatedTask::Delete), (SyncStatus::NotFound, None));
}

#[test]
fn the_first_user_with_the_name_is_deleted() {
    let users = vec![user("1", "x"), user("2", "Bob"), user("3", "bob")];
    let decision = decide(
        FederatedTask::Delete,
        "bOB",
        FederatedStep::ListUsers,
        &FederatedEvent::Users(Ok(users)),
    );
    match decision {
        FederatedDecision::Continue(FederatedStep::DeleteUser { id }) => assert_eq!(id, "2"),
        _ => panic!("nobody is deleted"),
    }
}

#[test]
fn results_come_in_the_order_of_the_servers() {
    let begun = FederatedUserService::delete_user_from_all_servers("bob", names(&["a", "b", "c"]));
    let mut events = vec![FederatedEvent::Admin(Ok(false))];
    events.extend(up_to_users(Vec::new()));
    events.push(FederatedEvent::Admin(error("down")));
    let results = run(begun, events);
    let seen: Vec<(&str, SyncStatus)> = results
        .iter()
        .map(|result| (result.server_name.as_str(), result.status))
        .collect();
    assert_eq!(
        seen,
        vec![("a", SyncStatus::Skipped), ("b", SyncStatus::NotFound), ("c", SyncStatus::Failed)]
    );
}

#[test]
fn every_server_is_reported() {
    let begun = FederatedUserService::sync_user_to_all_servers("bob", names(&["a", "b", "c"]));
    let mut events = up_to_users(vec![user("1", "bob")]);
    events.push(FederatedEvent::UserClient(true));
    events.push(FederatedEvent::UserLogin(false));
    events.push(FederatedEvent::Admin(Ok(false)));
    events.push(FederatedEvent::Admin(error("down")));
    let reported: Vec<String> =
        run(begun, events).into_iter().map(|result| result.server_name).collect();
    assert_eq!(reported, ["a", "b", "c"]);
}

#[test]
fn an_event_of_another_step_changes_nothing() {
    let begun = FederatedUserService::sync_user_to_all_servers("bob", names(&["a"]));
    let same = begun.advance(&FederatedEvent::UserLogin(true));
    match same.current() {
        Some((0, FederatedStep::GetAdmin)) => {}
        _ => panic!("the run went on"),
    }
}
