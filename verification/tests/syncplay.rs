use jellyswarrm::handlers::syncplay::access::{
    group_has_library_access, user_has_library_access, user_id_from_session_id,
    users_have_library_access_to_items, AccessCheck, AccessStep,
};
use jellyswarrm::handlers::syncplay::queue::{
    new_queue_items, queue_items_with, Direction, GroupQueueMode, PlayQueue, QueueItem,
};
use jellyswarrm::handlers::syncplay::routes::{
    buffering, create_group, gate, get_group, get_utc_time, group_status, inbound_action,
    is_stale_client_update, join_group, judge_report, list_groups, move_playlist_item,
    navigate_playlist, next_item, pause, ping, play_new_queue, previous_item, queue_entries,
    queue_items, ready, remove_from_playlist, sanitize_client_when, sanitize_client_when_at, seek,
    session_context, set_ignore_wait, set_new_queue, set_playlist_item, set_repeat_mode,
    set_shuffle_mode, stop, take_report, take_report_at, try_send_playlist_correction, unpause, utc_times,
    wait_for_buffering, AccessGate, ClientReport, GroupOrder, GroupStateType, InboundAction,
    InboundMessage, Member, PlayQueueUpdateReason, RequestIdentity,
};
use jellyswarrm::server_id::ServerId;
use jellyswarrm::time::Timestamp;

fn items(ids: &[u128]) -> Vec<QueueItem> {
    ids.iter()
        .map(|id| QueueItem { item_id: format!("item-{id}"), playlist_item_id: *id })
        .collect()
}

fn queue(ids: &[u128], playing: Option<usize>) -> PlayQueue {
    PlayQueue { playlist: items(ids), playing_item_index: playing }
}

fn ids(queue: &PlayQueue) -> Vec<u128> {
    queue.playlist.iter().map(|item| item.playlist_item_id).collect()
}

fn shown(orders: &[GroupOrder]) -> Vec<String> {
    orders.iter().map(|order| format!("{order:?}")).collect()
}

fn texts(texts: &[&str]) -> Vec<String> {
    texts.iter().map(|text| text.to_string()).collect()
}

fn at(millis: i64) -> Timestamp {
    Timestamp::from_parts(millis.div_euclid(1_000), millis.rem_euclid(1_000) as u32 * 1_000_000)
}

#[test]
fn a_new_queue_starts_at_the_given_entry() {
    let mut q = queue(&[1], None);
    let orders = play_new_queue(&mut q, items(&[5, 6, 7]), 1, 30);
    assert_eq!(ids(&q), vec![5, 6, 7]);
    assert_eq!(q.playing_item_index, Some(1));
    assert_eq!(
        shown(&orders),
        vec![
            "SetPosition { ticks: 30 }",
            "PendStartPosition",
            "SetPlaying { playing: false }",
            "TransitionToWaiting { resume: Always }",
            "Touch",
            "BroadcastQueueUpdate { reason: NewPlaylist }",
            "BroadcastStateUpdate { cause: \"Play\" }",
        ]
    );
    play_new_queue(&mut q, items(&[5, 6]), 9, 0);
    assert_eq!(q.playing_item_index, Some(1));
}

#[test]
fn an_empty_queue_stops_the_group() {
    let mut q = queue(&[1], Some(0));
    let orders = play_new_queue(&mut q, Vec::new(), 3, 30);
    assert_eq!(q.playing_item_index, None);
    assert_eq!(
        shown(&orders),
        vec![
            "SetPosition { ticks: 30 }",
            "PendStartPosition",
            "SetPlaying { playing: false }",
            "SetState { state: Idle }",
            "SetPosition { ticks: 0 }",
            "ClearPendingPosition",
            "SetWaitingResumePlaying { playing: false }",
            "Touch",
            "BroadcastQueueUpdate { reason: NewPlaylist }",
            "BroadcastCommand { command: Stop, position: Nowhere, delay_ms: 0 }",
            "BroadcastStateUpdate { cause: \"Stop\" }",
        ]
    );
}

#[test]
fn every_entry_gets_a_random_identifier() {
    let entries = new_queue_items(texts(&["a", "a", "b"]));
    assert_eq!(entries[2].item_id, "b");
    assert_ne!(entries[0].playlist_item_id, entries[1].playlist_item_id);
    for entry in &entries {
        let id = uuid::Uuid::from_u128(entry.playlist_item_id);
        assert_eq!(id.get_version_num(), 4);
        assert_eq!(id.get_variant(), uuid::Variant::RFC4122);
    }
    let mut q = queue(&[], None);
    set_new_queue(&mut q, texts(&["x", "y"]), 0, 0);
    assert_eq!(q.playlist[1].item_id, "y");
    assert_eq!(q.playing_item_index, Some(0));
    queue_items(&mut q, texts(&["z"]), GroupQueueMode::QueueNext);
    assert_eq!(q.playlist[1].item_id, "z");
}

#[test]
fn an_entry_is_selected_by_its_identifier() {
    let mut q = queue(&[1, 2, 3], Some(0));
    let orders = set_playlist_item(&mut q, 3);
    assert_eq!(q.playing_item_index, Some(2));
    assert_eq!(
        shown(&orders),
        vec![
            "SetPosition { ticks: 0 }",
            "PendPosition { ticks: 0 }",
            "TransitionToWaiting { resume: IfPlaying }",
            "Touch",
            "BroadcastQueueUpdate { reason: SetCurrentItem }",
            "BroadcastStateUpdate { cause: \"SetPlaylistItem\" }",
        ]
    );
    assert!(set_playlist_item(&mut q, 9).is_empty());
    assert_eq!(q.playing_item_index, Some(2));
}

#[test]
fn removing_entries_keeps_the_one_that_is_playing() {
    let mut q = queue(&[1, 2, 3, 4], Some(2));
    let orders = remove_from_playlist(&mut q, &vec![1, 4], false, false);
    assert_eq!(ids(&q), vec![2, 3]);
    assert_eq!(q.playing_item_index, Some(1));
    assert_eq!(shown(&orders), vec!["Touch", "BroadcastQueueUpdate { reason: RemoveItems }"]);
    remove_from_playlist(&mut q, &vec![3], false, false);
    assert_eq!(q.playing_item_index, None);
    let mut q = queue(&[1, 2], Some(1));
    remove_from_playlist(&mut q, &vec![1], false, true);
    assert_eq!((ids(&q), q.playing_item_index), (vec![2], None));
}

#[test]
fn a_group_without_entries_stops() {
    let stopping = [
        "SetState { state: Idle }",
        "SetPlaying { playing: false }",
        "SetWaitingResumePlaying { playing: false }",
        "SetPosition { ticks: 0 }",
        "ClearPendingPosition",
        "Touch",
        "BroadcastQueueUpdate { reason: RemoveItems }",
        "BroadcastCommand { command: Stop, position: Nowhere, delay_ms: 0 }",
    ];
    let mut q = queue(&[1], Some(0));
    let orders = shown(&remove_from_playlist(&mut q, &vec![1], false, false));
    assert_eq!(orders[..8], stopping);
    assert_eq!(orders[8], "BroadcastStateUpdate { cause: \"Stop\" }");
    let mut q = queue(&[1, 2], Some(0));
    let orders = shown(&remove_from_playlist(&mut q, &Vec::new(), true, false));
    assert_eq!((ids(&q), q.playing_item_index), (vec![], None));
    assert_eq!(orders[..8], stopping);
    assert_eq!(orders[8], "BroadcastStateUpdate { cause: \"RemoveFromPlaylist\" }");
}

#[test]
fn moving_an_entry_keeps_the_one_that_is_playing() {
    let mut q = queue(&[1, 2, 3], Some(0));
    let orders = move_playlist_item(&mut q, 1, 2);
    assert_eq!((ids(&q), q.playing_item_index), (vec![2, 3, 1], Some(2)));
    assert_eq!(shown(&orders), vec!["Touch", "BroadcastQueueUpdate { reason: MoveItem }"]);
    move_playlist_item(&mut q, 1, 0);
    assert_eq!((ids(&q), q.playing_item_index), (vec![1, 2, 3], Some(0)));
    move_playlist_item(&mut q, 2, 99);
    assert_eq!((ids(&q), q.playing_item_index), (vec![1, 3, 2], Some(0)));
    assert!(move_playlist_item(&mut q, 9, 0).is_empty());
}

#[test]
fn entries_are_queued_at_the_end_or_next() {
    let mut q = queue(&[1, 2], Some(0));
    let orders = queue_entries(&mut q, items(&[8, 9]), GroupQueueMode::QueueNext);
    assert_eq!((ids(&q), q.playing_item_index), (vec![1, 8, 9, 2], Some(0)));
    assert_eq!(shown(&orders), vec!["Touch", "BroadcastQueueUpdate { reason: QueueNext }"]);
    let orders = queue_entries(&mut q, items(&[5]), GroupQueueMode::Queue);
    assert_eq!(ids(&q), vec![1, 8, 9, 2, 5]);
    assert_eq!(shown(&orders)[1], "BroadcastQueueUpdate { reason: Queue }");
    let mut q = queue(&[], None);
    queue_entries(&mut q, items(&[3]), GroupQueueMode::QueueNext);
    assert_eq!((ids(&q), q.playing_item_index), (vec![3], Some(0)));
    let mut q = queue(&[], None);
    queue_entries(&mut q, Vec::new(), GroupQueueMode::Queue);
    assert_eq!(q.playing_item_index, None);
}

#[test]
fn navigation_goes_around() {
    let mut q = queue(&[1, 2, 3], Some(2));
    let orders = next_item(&mut q, None);
    assert_eq!(q.playing_item_index, Some(0));
    assert_eq!(shown(&orders)[4], "BroadcastQueueUpdate { reason: NextItem }");
    assert_eq!(shown(&orders)[5], "BroadcastStateUpdate { cause: \"NextItem\" }");
    let orders = previous_item(&mut q, None);
    assert_eq!(q.playing_item_index, Some(2));
    assert_eq!(shown(&orders)[5], "BroadcastStateUpdate { cause: \"PreviousItem\" }");
    next_item(&mut q, Some(1));
    assert_eq!(q.playing_item_index, Some(1));
    next_item(&mut q, Some(77));
    assert_eq!(q.playing_item_index, Some(2));
    let mut q = queue(&[1, 2, 3], None);
    previous_item(&mut q, None);
    assert_eq!(q.playing_item_index, Some(2));
    let mut q = queue(&[], None);
    assert!(next_item(&mut q, None).is_empty());
    let mut q = queue(&[1, 2], Some(0));
    let reason = PlayQueueUpdateReason::NextItem;
    navigate_playlist(&mut q, None, Direction::Next, reason, "x");
    assert_eq!(q.playing_item_index, Some(1));
}

#[test]
fn playing_on_waits_for_the_slowest() {
    let orders = shown(&unpause(250, at(1_000)));
    assert_eq!(
        orders,
        vec![
            "SetState { state: Playing }",
            "SetPlaying { playing: true }",
            "SetWaitingResumePlaying { playing: true }",
            "ClearPendingPosition",
            "SetPositionBase { time: Timestamp { secs: 1, subsec_nanos: 250000000 } }",
            "Touch",
            "BroadcastCommand { command: Unpause, position: Start, delay_ms: 250 }",
            "BroadcastStateUpdate { cause: \"Unpause\" }",
        ]
    );
    let orders = shown(&unpause(-5, at(1_000)));
    assert_eq!(orders[4], "SetPositionBase { time: Timestamp { secs: 1, subsec_nanos: 0 } }");
    assert_eq!(
        orders[6],
        "BroadcastCommand { command: Unpause, position: Start, delay_ms: -5 }"
    );
}

#[test]
fn pausing_stopping_and_seeking() {
    assert_eq!(
        shown(&pause()),
        vec![
            "Freeze",
            "SetState { state: Paused }",
            "SetPlaying { playing: false }",
            "SetWaitingResumePlaying { playing: false }",
            "ClearPendingPosition",
            "Touch",
            "BroadcastCommand { command: Pause, position: Frozen, delay_ms: 0 }",
            "BroadcastStateUpdate { cause: \"Pause\" }",
        ]
    );
    assert_eq!(
        shown(&stop()),
        vec![
            "SetState { state: Idle }",
            "SetPlaying { playing: false }",
            "SetWaitingResumePlaying { playing: false }",
            "SetPosition { ticks: 0 }",
            "ClearPendingPosition",
            "Touch",
            "BroadcastCommand { command: Stop, position: Nowhere, delay_ms: 0 }",
            "BroadcastStateUpdate { cause: \"Stop\" }",
        ]
    );
    assert_eq!(
        shown(&seek(70)),
        vec![
            "SetPosition { ticks: 70 }",
            "PendStartPosition",
            "TransitionToWaiting { resume: IfPlaying }",
            "Touch",
            "BroadcastCommand { command: Seek, position: Start, delay_ms: 0 }",
            "BroadcastStateUpdate { cause: \"Seek\" }",
        ]
    );
    assert_eq!(shown(&seek(-70))[0], "SetPosition { ticks: 0 }");
}

#[test]
fn entries_take_identifiers_in_order() {
    let entries = queue_items_with(vec!["a".to_string(), "b".to_string()], &vec![7, 5]);
    let found: Vec<(&str, u128)> =
        entries.iter().map(|entry| (entry.item_id.as_str(), entry.playlist_item_id)).collect();
    assert_eq!(found, [("a", 7), ("b", 5)]);
}

#[test]
fn times_of_clients_are_made_sane() {
    let now = at(10_000);
    assert_eq!(sanitize_client_when_at(at(11_999), now), at(11_999));
    assert_eq!(sanitize_client_when_at(at(12_000), now), at(12_000));
    assert_eq!(sanitize_client_when_at(at(12_001), now), at(12_000));
    assert_eq!(sanitize_client_when_at(at(-5), now), at(-5));
    let far = Timestamp::from_parts(8_000_000_000_000, 0);
    let sane = sanitize_client_when(far);
    assert!(far.lies_after(sane));
    assert!(sane.lies_after(Timestamp::from_parts(1_577_836_800, 0)));
    let past = Timestamp::from_parts(5, 0);
    assert_eq!(sanitize_client_when(past), past);
}

#[test]
fn reports_that_lag_behind_are_stale() {
    assert!(!is_stale_client_update(None, at(0)));
    assert!(!is_stale_client_update(Some(at(1_500)), at(1_000)));
    assert!(is_stale_client_update(Some(at(1_501)), at(1_000)));
    // Half a second into a leap second, half a second leads to the start of the next one.
    let leap = Timestamp::from_parts(59, 1_500_000_000);
    assert!(is_stale_client_update(Some(Timestamp::from_parts(60, 900_000_000)), leap));
    assert!(is_stale_client_update(Some(Timestamp::from_parts(60, 1)), leap));
    assert!(!is_stale_client_update(Some(Timestamp::from_parts(60, 0)), leap));
}

#[test]
fn reports_are_judged() {
    let q = queue(&[1, 2], Some(0));
    let known = Some(Member { last_client_when: Some(at(9_000)), is_buffering: false });
    assert!(try_send_playlist_correction(&q, 2));
    assert!(!try_send_playlist_correction(&q, 1));
    assert!(!try_send_playlist_correction(&queue(&[1], None), 2));
    assert_eq!(judge_report(&q, 2, known, at(9_000), true), ClientReport::Correct);
    assert_eq!(judge_report(&q, 1, known, at(8_000), true), ClientReport::Ignore);
    assert_eq!(
        judge_report(&q, 1, known, at(8_600), true),
        ClientReport::Accept {
            time: at(8_600),
            member: Some(Member { last_client_when: Some(at(8_600)), is_buffering: true }),
        }
    );
    assert_eq!(
        judge_report(&q, 1, None, at(5), false),
        ClientReport::Accept { time: at(5), member: None }
    );
    assert_eq!(
        take_report_at(&q, 1, known, at(20_000), true, at(10_000)),
        ClientReport::Accept {
            time: at(12_000),
            member: Some(Member { last_client_when: Some(at(12_000)), is_buffering: true }),
        }
    );
    assert_eq!(take_report_at(&q, 1, known, at(20_000), true, at(5_000)), ClientReport::Ignore);
    assert_eq!(take_report_at(&q, 2, known, at(20_000), true, at(5_000)), ClientReport::Correct);
    assert_eq!(take_report(&q, 2, known, at(9_000), true), ClientReport::Correct);
    assert_eq!(take_report(&q, 1, known, at(8_000), true), ClientReport::Ignore);
}

#[test]
fn a_group_waits_for_sessions_that_buffer() {
    let now = at(1);
    assert_eq!(
        shown(&buffering(GroupStateType::Playing, false, now)),
        vec!["FreezeAndPend { time: Timestamp { secs: 0, subsec_nanos: 1000000 } }"]
    );
    assert!(buffering(GroupStateType::Waiting, false, now).is_empty());
    assert!(buffering(GroupStateType::Playing, true, now).is_empty());
    assert_eq!(
        shown(&wait_for_buffering(GroupStateType::Playing, true, true, at(0), now)),
        vec![
            "SetPlaying { playing: true }",
            "SetState { state: Waiting }",
            "SetWaitingResumePlaying { playing: true }",
            "SetLastUpdated { time: Timestamp { secs: 0, subsec_nanos: 1000000 } }",
            "Touch",
            "BroadcastStateUpdate { cause: \"Buffer\" }",
        ]
    );
    assert_eq!(
        shown(&wait_for_buffering(GroupStateType::Waiting, false, false, at(1), now)),
        vec![
            "SetPlaying { playing: false }",
            "PendStartPosition",
            "Touch",
            "BroadcastStateUpdate { cause: \"Buffer\" }",
        ]
    );
    assert_eq!(
        shown(&wait_for_buffering(GroupStateType::Waiting, true, false, at(1), now)),
        vec![
            "SetPlaying { playing: false }",
            "Touch",
            "BroadcastStateUpdate { cause: \"Buffer\" }",
        ]
    );
}

#[test]
fn a_group_plays_on_once_its_sessions_are_ready() {
    let now = at(1);
    assert_eq!(
        shown(&ready(GroupStateType::Playing, false, true, at(0), now)),
        vec![
            "SetPlaying { playing: true }",
            "SetLastUpdated { time: Timestamp { secs: 0, subsec_nanos: 1000000 } }",
            "Touch",
        ]
    );
    assert_eq!(
        shown(&ready(GroupStateType::Waiting, false, true, at(1), now)),
        vec![
            "SetState { state: Waiting }",
            "PendStartPosition",
            "Touch",
            "ResolveWaiting { cause: \"Ready\" }",
        ]
    );
    assert_eq!(
        shown(&ready(GroupStateType::Paused, true, true, at(0), now)),
        vec![
            "SetState { state: Waiting }",
            "SetLastUpdated { time: Timestamp { secs: 0, subsec_nanos: 1000000 } }",
            "Touch",
            "ResolveWaiting { cause: \"Ready\" }",
        ]
    );
}

#[test]
fn small_changes_of_a_group() {
    assert_eq!(shown(&set_ignore_wait()), vec!["Touch", "ResolveWaiting { cause: \"IgnoreWait\" }"]);
    assert_eq!(
        shown(&set_repeat_mode()),
        vec!["Touch", "BroadcastQueueUpdate { reason: RepeatMode }"]
    );
    assert_eq!(
        shown(&set_shuffle_mode()),
        vec!["Touch", "BroadcastQueueUpdate { reason: ShuffleMode }"]
    );
    assert_eq!(shown(&ping()), vec!["Touch"]);
    let times = get_utc_time();
    assert!(times.request_reception_time.secs > 1_577_836_800);
    assert!(times.response_transmission_time.secs > 1_577_836_800);
    let times = utc_times(at(1_000), at(2_500));
    assert_eq!(times.request_reception_time, at(1_000));
    assert_eq!(times.response_transmission_time, at(2_500));
}

fn answer(
    mut check: AccessCheck,
    users: &[(&str, Option<&[i64]>)],
    mapped: &[(&str, Option<i64>)],
) -> (Result<bool, u16>, Vec<String>) {
    let mut asked = Vec::new();
    loop {
        let (who, what) = match check.step() {
            AccessStep::User(id) => (Some(id.to_string()), None),
            AccessStep::Item(id) => (None, Some(id.to_string())),
            AccessStep::Done(outcome) => return (outcome, asked),
        };
        if let Some(id) = who {
            asked.push(id.clone());
            let found = match users.iter().find(|(user, _)| *user == id) {
                Some((_, servers)) => Ok(servers
                    .map(|servers| servers.iter().map(|id| ServerId::new(*id)).collect())),
                None => Err(()),
            };
            check = check.user(found);
        } else if let Some(id) = what {
            asked.push(id.clone());
            let found = match mapped.iter().find(|(item, _)| *item == id) {
                Some((_, server)) => Ok(server.map(ServerId::new)),
                None => Err(()),
            };
            check = check.item(found);
        }
    }
}

#[test]
fn every_user_needs_a_session_on_every_server() {
    let users: [(&str, Option<&[i64]>); 3] =
        [("a", Some(&[1, 2])), ("b", Some(&[2])), ("gone", None)];
    let mapped = [("x", Some(2)), ("y", Some(1)), ("lost", None)];
    let check = |who: &[&str], what: &[&str]| {
        let begun = users_have_library_access_to_items(texts(who), texts(what));
        answer(begun, &users, &mapped)
    };
    assert_eq!(check(&["a", "b"], &["x"]).0, Ok(true));
    assert_eq!(check(&["a", "b"], &["x", "y"]).0, Ok(false));
    assert_eq!(check(&["a"], &["x", "y"]).0, Ok(true));
    assert_eq!(check(&["a"], &["lost"]).0, Ok(false));
    assert_eq!(check(&["a", "gone"], &["x"]), (Ok(false), texts(&["a", "gone"])));
    assert_eq!(check(&["nobody"], &["x"]).0, Err(500));
    assert_eq!(check(&["a"], &["unknown"]).0, Err(500));
    assert_eq!(check(&["nobody"], &[]), (Ok(true), Vec::new()));
    assert_eq!(check(&["a", "a", "b", "a"], &["x"]), (Ok(true), texts(&["a", "b", "x"])));
    assert_eq!(check(&[], &["x"]).0, Ok(true));
    let alone = user_has_library_access("b", texts(&["y"]));
    assert_eq!(answer(alone, &users, &mapped).0, Ok(false));
    let group = group_has_library_access(&texts(&["a:tv:t", ":x", "b:token:u"]), texts(&["x"]));
    assert_eq!(answer(group, &users, &mapped), (Ok(true), texts(&["a", "b", "x"])));
}

#[test]
fn sessions_carry_their_user() {
    let identity = |device: Option<&str>| {
        Some(RequestIdentity {
            token: Some("t:1".to_string()),
            user_id: Some("user".to_string()),
            device_id: device.map(|device| device.to_string()),
        })
    };
    let id = |device| session_context(identity(device)).ok().unwrap().session_id;
    assert_eq!(id(Some("tv")), "user:tv:t:1");
    assert_eq!(id(Some("")), "user:token:t:1");
    assert_eq!(id(None), "user:token:t:1");
    assert_eq!(user_id_from_session_id(&id(Some("tv"))), Some("user"));
    assert_eq!(user_id_from_session_id("alone"), Some("alone"));
    assert_eq!(user_id_from_session_id(":x"), None);
    assert_eq!(user_id_from_session_id(""), None);
    assert_eq!(session_context(None).err(), Some(500));
    let mut nameless = identity(None).unwrap();
    nameless.user_id = None;
    assert_eq!(session_context(Some(nameless)).err(), Some(401));
    let mut tokenless = identity(None).unwrap();
    tokenless.token = None;
    assert_eq!(session_context(Some(tokenless)).err(), Some(401));
}

#[test]
fn requests_end_with_a_status() {
    assert_eq!(gate(None), AccessGate::Proceed);
    assert_eq!(gate(Some(Ok(true))), AccessGate::Proceed);
    assert_eq!(gate(Some(Ok(false))), AccessGate::Deny(204));
    assert_eq!(gate(Some(Err(500))), AccessGate::Answer(500));
    assert_eq!(create_group(true), Ok(()));
    assert_eq!(create_group(false), Err(409));
    assert_eq!((join_group(true), join_group(false)), (204, 409));
    assert_eq!(list_groups(&vec![Ok(true), Ok(false), Ok(true)]), Ok(vec![0, 2]));
    assert_eq!(list_groups(&vec![Ok(true), Err(500), Err(400)]), Err(500));
    assert_eq!(group_status(false, Ok(true)), 404);
    assert_eq!(group_status(true, Ok(true)), 200);
    assert_eq!(group_status(true, Ok(false)), 404);
    assert_eq!(group_status(true, Err(500)), 500);
}

#[test]
fn groups_are_asked_for_by_uuid() {
    let id = 0x67e55044_10b1_426f_9247_bb680e5fe0c8;
    assert_eq!(get_group("67e55044-10b1-426f-9247-bb680e5fe0c8"), Some(id));
    assert_eq!(get_group("67e5504410b1426f9247bb680e5fe0c8"), Some(id));
    assert_eq!(get_group("67e55044"), None);
}

#[test]
fn messages_of_clients_are_answered() {
    let text = |kind| InboundMessage::Text { message_type: kind };
    assert_eq!(inbound_action(text(Some("keepalive"))), InboundAction::KeepAlive);
    assert_eq!(inbound_action(text(Some("Other"))), InboundAction::Nothing);
    assert_eq!(inbound_action(text(None)), InboundAction::Nothing);
    assert_eq!(inbound_action(InboundMessage::Ping), InboundAction::Pong);
    assert_eq!(inbound_action(InboundMessage::Close), InboundAction::Close);
    assert_eq!(inbound_action(InboundMessage::Other), InboundAction::Nothing);
}
