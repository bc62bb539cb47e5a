//! What requests of a group's sessions do to the group.
//!
//! Each request changes the queue of the group and leaves a list of orders, which are carried out
//! on the group one after the other.

use crate::handlers::syncplay::queue::{self, Direction, GroupQueueMode, PlayQueue, QueueItem};
use crate::media_storage_service;
use crate::status;
use crate::text;
use crate::time::{Timestamp, NANOS_PER_SECOND};
use vstd::prelude::*;
use vstd::string::*;

verus! {

/// How a group plays.
#[derive(Debug, Clone, Copy, PartialEq, Eq, Structural)]
pub enum GroupStateType {
    Idle,
    Waiting,
    Paused,
    Playing,
}

/// Why the sessions of a group are told of its queue.
#[derive(Debug, Clone, Copy, PartialEq, Eq, Structural)]
pub enum PlayQueueUpdateReason {
    NewPlaylist,
    SetCurrentItem,
    RemoveItems,
    MoveItem,
    Queue,
    QueueNext,
    RepeatMode,
    ShuffleMode,
    NextItem,
    PreviousItem,
}

/// What the sessions of a group are told to do.
#[derive(Debug, Clone, Copy, PartialEq, Eq, Structural)]
pub enum SendCommandType {
    Unpause,
    Pause,
    Stop,
    Seek,
}

/// The position that goes with a command.
#[derive(Debug, Clone, Copy, PartialEq, Eq, Structural)]
pub enum CommandPosition {
    /// No position.
    Nowhere,
    /// The position from which the group plays.
    Start,
    /// The position at which the group was frozen last.
    Frozen,
}

/// Whether a group goes on playing once nobody has to be waited for.
#[derive(Debug, Clone, Copy, PartialEq, Eq, Structural)]
pub enum ResumePlaying {
    /// It does.
    Always,
    /// It does if it is playing now.
    IfPlaying,
}

/// An order that is carried out on a group. Where nothing else is said, it changes only what it
/// names.
#[derive(Debug)]
pub enum GroupOrder {
    /// Play from a position, as of now.
    SetPosition { ticks: i64 },
    /// Let the position from which the group plays be the one to wait at.
    PendStartPosition,
    /// Let a position be the one to wait at.
    PendPosition { ticks: i64 },
    /// Let there be no position to wait at.
    ClearPendingPosition,
    /// Freeze the group at the position that it is estimated to have reached by now.
    Freeze,
    /// Freeze the group at the position that it is estimated to have reached by a time, and let
    /// that position be the one to wait at.
    FreezeAndPend { time: Timestamp },
    /// Let the group play from its position as of a time.
    SetPositionBase { time: Timestamp },
    SetPlaying { playing: bool },
    SetState { state: GroupStateType },
    /// Let the group play, or not, once nobody has to be waited for.
    SetWaitingResumePlaying { playing: bool },
    /// Let the group wait for its sessions.
    TransitionToWaiting { resume: ResumePlaying },
    SetLastUpdated { time: Timestamp },
    /// Note that the group was changed now.
    Touch,
    /// Tell all sessions of the queue.
    BroadcastQueueUpdate { reason: PlayQueueUpdateReason },
    /// Tell all sessions to do something.
    BroadcastCommand { command: SendCommandType, position: CommandPosition, delay_ms: i64 },
    /// Tell all sessions of the state, and what changed it.
    BroadcastStateUpdate { cause: &'static str },
    /// Stop to wait if nobody has to be waited for any more, and tell what brought that about.
    ResolveWaiting { cause: &'static str },
}

/// The orders that stop a group.
pub open spec fn stop_orders() -> Seq<GroupOrder> {
    seq![
        GroupOrder::SetState { state: GroupStateType::Idle },
        GroupOrder::SetPlaying { playing: false },
        GroupOrder::SetWaitingResumePlaying { playing: false },
        GroupOrder::SetPosition { ticks: 0 },
        GroupOrder::ClearPendingPosition,
    ]
}

fn push_stop_orders(orders: &mut Vec<GroupOrder>)
    ensures
        final(orders)@ == old(orders)@ + stop_orders(),
{
    orders.push(GroupOrder::SetState { state: GroupStateType::Idle });
    orders.push(GroupOrder::SetPlaying { playing: false });
    orders.push(GroupOrder::SetWaitingResumePlaying { playing: false });
    orders.push(GroupOrder::SetPosition { ticks: 0 });
    orders.push(GroupOrder::ClearPendingPosition);
    assert(orders@ =~= old(orders)@ + stop_orders());
}

/// The command to stop.
pub open spec fn stop_command() -> GroupOrder {
    GroupOrder::BroadcastCommand {
        command: SendCommandType::Stop,
        position: CommandPosition::Nowhere,
        delay_ms: 0,
    }
}

/// The orders that follow a new queue.
pub open spec fn new_queue_orders(start_position_ticks: i64, is_empty: bool) -> Seq<GroupOrder> {
    seq![
        GroupOrder::SetPosition { ticks: start_position_ticks },
        GroupOrder::PendStartPosition,
        GroupOrder::SetPlaying { playing: false },
    ] + if is_empty {
        seq![
            GroupOrder::SetState { state: GroupStateType::Idle },
            GroupOrder::SetPosition { ticks: 0 },
            GroupOrder::ClearPendingPosition,
            GroupOrder::SetWaitingResumePlaying { playing: false },
            GroupOrder::Touch,
            GroupOrder::BroadcastQueueUpdate { reason: PlayQueueUpdateReason::NewPlaylist },
            stop_command(),
            GroupOrder::BroadcastStateUpdate { cause: "Stop" },
        ]
    } else {
        seq![
            GroupOrder::TransitionToWaiting { resume: ResumePlaying::Always },
            GroupOrder::Touch,
            GroupOrder::BroadcastQueueUpdate { reason: PlayQueueUpdateReason::NewPlaylist },
            GroupOrder::BroadcastStateUpdate { cause: "Play" },
        ]
    }
}

/// Whether a queue is a new one of some entries, with the entry at `position`, or else the last
/// one, playing.
pub open spec fn is_new_queue(q: PlayQueue, items: Seq<QueueItem>, position: usize) -> bool {
    queue::is_replaced(items, position, q)
}

/// Gives a group a new queue of entries.
pub fn play_new_queue(
    q: &mut PlayQueue,
    items: Vec<QueueItem>,
    playing_item_position: usize,
    start_position_ticks: i64,
) -> (r: Vec<GroupOrder>)
    ensures
        is_new_queue(*final(q), items@, playing_item_position),
        final(q).is_valid(),
        r@ == new_queue_orders(start_position_ticks, items.len() == 0),
{
    let is_empty = items.len() == 0;
    q.replace(items, playing_item_position);
    let mut orders: Vec<GroupOrder> = Vec::new();
    orders.push(GroupOrder::SetPosition { ticks: start_position_ticks });
    orders.push(GroupOrder::PendStartPosition);
    orders.push(GroupOrder::SetPlaying { playing: false });
    if is_empty {
        orders.push(GroupOrder::SetState { state: GroupStateType::Idle });
        orders.push(GroupOrder::SetPosition { ticks: 0 });
        orders.push(GroupOrder::ClearPendingPosition);
        orders.push(GroupOrder::SetWaitingResumePlaying { playing: false });
    } else {
        orders.push(GroupOrder::TransitionToWaiting { resume: ResumePlaying::Always });
    }
    orders.push(GroupOrder::Touch);
    orders.push(
        GroupOrder::BroadcastQueueUpdate { reason: PlayQueueUpdateReason::NewPlaylist },
    );
    if is_empty {
        orders.push(
            GroupOrder::BroadcastCommand {
                command: SendCommandType::Stop,
                position: CommandPosition::Nowhere,
                delay_ms: 0,
            },
        );
        orders.push(GroupOrder::BroadcastStateUpdate { cause: "Stop" });
    } else {
        orders.push(GroupOrder::BroadcastStateUpdate { cause: "Play" });
    }
    assert(orders@ =~= new_queue_orders(start_position_ticks, is_empty));
    orders
}

/// Gives a group a new queue of items, each with an entry of its own.
pub fn set_new_queue(
    q: &mut PlayQueue,
    playing_queue: Vec<String>,
    playing_item_position: usize,
    start_position_ticks: i64,
) -> (r: Vec<GroupOrder>)
    ensures
        queue::are_for(final(q).playlist@, playing_queue@),
        forall|i: int|
            0 <= i < final(q).playlist.len() ==> queue::is_random_uuid(
                (#[trigger] final(q).playlist[i]).playlist_item_id,
            ),
        is_new_queue(*final(q), final(q).playlist@, playing_item_position),
        final(q).is_valid(),
        r@ == new_queue_orders(start_position_ticks, playing_queue.len() == 0),
{
    play_new_queue(
        q,
        queue::new_queue_items(playing_queue),
        playing_item_position,
        start_position_ticks,
    )
}

/// The orders that follow the choice of another entry.
pub open spec fn other_item_orders(
    queue_reason: PlayQueueUpdateReason,
    state_reason: &'static str,
) -> Seq<GroupOrder> {
    seq![
        GroupOrder::SetPosition { ticks: 0 },
        GroupOrder::PendPosition { ticks: 0 },
        GroupOrder::TransitionToWaiting { resume: ResumePlaying::IfPlaying },
        GroupOrder::Touch,
        GroupOrder::BroadcastQueueUpdate { reason: queue_reason },
        GroupOrder::BroadcastStateUpdate { cause: state_reason },
    ]
}

fn other_item(queue_reason: PlayQueueUpdateReason, state_reason: &'static str) -> (r: Vec<
    GroupOrder,
>)
    ensures
        r@ == other_item_orders(queue_reason, state_reason),
{
    let mut orders: Vec<GroupOrder> = Vec::new();
    orders.push(GroupOrder::SetPosition { ticks: 0 });
    orders.push(GroupOrder::PendPosition { ticks: 0 });
    orders.push(GroupOrder::TransitionToWaiting { resume: ResumePlaying::IfPlaying });
    orders.push(GroupOrder::Touch);
    orders.push(GroupOrder::BroadcastQueueUpdate { reason: queue_reason });
    orders.push(GroupOrder::BroadcastStateUpdate { cause: state_reason });
    assert(orders@ =~= other_item_orders(queue_reason, state_reason));
    orders
}

/// The orders that follow the choice of an entry by its identifier, if it was found.
pub open spec fn chosen_item_orders(found: bool) -> Seq<GroupOrder> {
    if found {
        other_item_orders(PlayQueueUpdateReason::SetCurrentItem, "SetPlaylistItem")
    } else {
        Seq::empty()
    }
}

/// Lets a group play another entry of its queue. An entry that is not there changes nothing.
pub fn set_playlist_item(q: &mut PlayQueue, playlist_item_id: u128) -> (r: Vec<GroupOrder>)
    ensures
        final(q).playlist@ == old(q).playlist@,
        exists|found: bool| #[trigger]
            queue::is_selected(*old(q), playlist_item_id, found, *final(q)) && r@
                == chosen_item_orders(found),
        old(q).is_valid() ==> final(q).is_valid(),
{
    let found = q.select(playlist_item_id);
    let orders = if found {
        other_item(PlayQueueUpdateReason::SetCurrentItem, "SetPlaylistItem")
    } else {
        Vec::new()
    };
    assert(queue::is_selected(*old(q), playlist_item_id, found, *q));
    assert(orders@ == chosen_item_orders(found));
    orders
}

/// The orders that follow when a queue is cleared.
pub open spec fn clear_orders() -> Seq<GroupOrder> {
    stop_orders() + seq![
        GroupOrder::Touch,
        GroupOrder::BroadcastQueueUpdate { reason: PlayQueueUpdateReason::RemoveItems },
        stop_command(),
        GroupOrder::BroadcastStateUpdate { cause: "RemoveFromPlaylist" },
    ]
}

/// The orders that follow when entries were taken out of a queue.
pub open spec fn remove_orders(is_empty: bool) -> Seq<GroupOrder> {
    if is_empty {
        stop_orders() + seq![
            GroupOrder::Touch,
            GroupOrder::BroadcastQueueUpdate { reason: PlayQueueUpdateReason::RemoveItems },
            stop_command(),
            GroupOrder::BroadcastStateUpdate { cause: "Stop" },
        ]
    } else {
        seq![
            GroupOrder::Touch,
            GroupOrder::BroadcastQueueUpdate { reason: PlayQueueUpdateReason::RemoveItems },
        ]
    }
}

/// Takes entries out of the queue of a group, or all of them. A group without entries stops.
pub fn remove_from_playlist(
    q: &mut PlayQueue,
    playlist_item_ids: &Vec<u128>,
    clear_playlist: bool,
    clear_playing_item: bool,
) -> (r: Vec<GroupOrder>)
    ensures
        clear_playlist ==> {
            &&& final(q).playlist.len() == 0
            &&& final(q).playing_item_index is None
            &&& r@ == clear_orders()
        },
        !clear_playlist ==> {
            &&& queue::is_removed(*old(q), playlist_item_ids@, clear_playing_item, *final(q))
            &&& r@ == remove_orders(final(q).playlist.len() == 0)
        },
        old(q).is_valid() ==> final(q).is_valid(),
{
    let mut orders: Vec<GroupOrder> = Vec::new();
    if clear_playlist {
        q.clear();
    } else {
        q.remove(playlist_item_ids, clear_playing_item);
    }
    let is_empty = q.playlist.len() == 0;
    if is_empty {
        push_stop_orders(&mut orders);
    }
    orders.push(GroupOrder::Touch);
    orders.push(
        GroupOrder::BroadcastQueueUpdate { reason: PlayQueueUpdateReason::RemoveItems },
    );
    if is_empty {
        orders.push(
            GroupOrder::BroadcastCommand {
                command: SendCommandType::Stop,
                position: CommandPosition::Nowhere,
                delay_ms: 0,
            },
        );
        if clear_playlist {
            orders.push(GroupOrder::BroadcastStateUpdate { cause: "RemoveFromPlaylist" });
            assert(orders@ =~= clear_orders());
        } else {
            orders.push(GroupOrder::BroadcastStateUpdate { cause: "Stop" });
            assert(orders@ =~= remove_orders(true));
        }
    } else {
        assert(orders@ =~= remove_orders(false));
    }
    orders
}

/// The orders that follow a change of the queue that does not touch what is playing.
pub open spec fn queue_orders(reason: PlayQueueUpdateReason) -> Seq<GroupOrder> {
    seq![GroupOrder::Touch, GroupOrder::BroadcastQueueUpdate { reason }]
}

fn queue_changed(reason: PlayQueueUpdateReason) -> (r: Vec<GroupOrder>)
    ensures
        r@ == queue_orders(reason),
{
    let mut orders: Vec<GroupOrder> = Vec::new();
    orders.push(GroupOrder::Touch);
    orders.push(GroupOrder::BroadcastQueueUpdate { reason });
    assert(orders@ =~= queue_orders(reason));
    orders
}

/// The orders that follow the move of an entry, if it was found.
pub open spec fn moved_item_orders(found: bool) -> Seq<GroupOrder> {
    if found {
        queue_orders(PlayQueueUpdateReason::MoveItem)
    } else {
        Seq::empty()
    }
}

/// Moves an entry of the queue of a group. An entry that is not there changes nothing.
pub fn move_playlist_item(q: &mut PlayQueue, playlist_item_id: u128, new_index: usize) -> (r: Vec<
    GroupOrder,
>)
    ensures
        exists|found: bool| #[trigger]
            queue::is_moved(*old(q), playlist_item_id, new_index, found, *final(q)) && r@
                == moved_item_orders(found),
        old(q).is_valid() ==> final(q).is_valid(),
{
    let found = q.move_item(playlist_item_id, new_index);
    let orders = if found {
        queue_changed(PlayQueueUpdateReason::MoveItem)
    } else {
        Vec::new()
    };
    assert(queue::is_moved(*old(q), playlist_item_id, new_index, found, *q));
    assert(orders@ == moved_item_orders(found));
    orders
}

/// Why the sessions are told of new entries.
pub open spec fn queue_reason(mode: GroupQueueMode) -> PlayQueueUpdateReason {
    match mode {
        GroupQueueMode::Queue => PlayQueueUpdateReason::Queue,
        GroupQueueMode::QueueNext => PlayQueueUpdateReason::QueueNext,
    }
}

/// Puts entries into the queue of a group.
pub fn queue_entries(q: &mut PlayQueue, items: Vec<QueueItem>, mode: GroupQueueMode) -> (r: Vec<
    GroupOrder,
>)
    requires
        mode == GroupQueueMode::QueueNext && items.len() > 0 ==> old(q).is_valid(),
    ensures
        queue::is_enqueued(*old(q), items@, mode, *final(q)),
        old(q).is_valid() ==> final(q).is_valid(),
        r@ == queue_orders(queue_reason(mode)),
{
    q.enqueue(items, mode);
    match mode {
        GroupQueueMode::Queue => queue_changed(PlayQueueUpdateReason::Queue),
        GroupQueueMode::QueueNext => queue_changed(PlayQueueUpdateReason::QueueNext),
    }
}

/// Puts items into the queue of a group, each with an entry of its own.
pub fn queue_items(q: &mut PlayQueue, item_ids: Vec<String>, mode: GroupQueueMode) -> (r: Vec<
    GroupOrder,
>)
    requires
        mode == GroupQueueMode::QueueNext && item_ids.len() > 0 ==> old(q).is_valid(),
    ensures
        exists|items: Seq<QueueItem>|
            {
                &&& queue::are_for(items, item_ids@)
                &&& forall|i: int|
                    0 <= i < items.len() ==> queue::is_random_uuid(
                        (#[trigger] items[i]).playlist_item_id,
                    )
                &&& #[trigger] queue::is_enqueued(*old(q), items, mode, *final(q))
            },
        old(q).is_valid() ==> final(q).is_valid(),
        r@ == queue_orders(queue_reason(mode)),
{
    queue_entries(q, queue::new_queue_items(item_ids), mode)
}

/// When a group plays on that waits `delay_ms` milliseconds from `now` on, but not less than none.
pub open spec fn resume_time(now: Timestamp, delay_ms: i64) -> Timestamp {
    now.later_by(
        if delay_ms > 0 {
            delay_ms as int
        } else {
            0
        },
    )
}

/// The orders that let a group play on.
pub open spec fn unpause_orders(delay_ms: i64, now: Timestamp) -> Seq<GroupOrder> {
    seq![
        GroupOrder::SetState { state: GroupStateType::Playing },
        GroupOrder::SetPlaying { playing: true },
        GroupOrder::SetWaitingResumePlaying { playing: true },
        GroupOrder::ClearPendingPosition,
        GroupOrder::SetPositionBase { time: resume_time(now, delay_ms) },
        GroupOrder::Touch,
        GroupOrder::BroadcastCommand {
            command: SendCommandType::Unpause,
            position: CommandPosition::Start,
            delay_ms,
        },
        GroupOrder::BroadcastStateUpdate { cause: "Unpause" },
    ]
}

/// Lets a group play on after the delay that its sessions need, if that is still a date.
pub fn unpause(delay_ms: i64, now: Timestamp) -> (r: Vec<GroupOrder>)
    requires
        now.is_date(),
        resume_time(now, delay_ms).is_date(),
    ensures
        r@ == unpause_orders(delay_ms, now),
{
    let wait: i64 = if delay_ms > 0 {
        delay_ms
    } else {
        0
    };
    let mut orders: Vec<GroupOrder> = Vec::new();
    orders.push(GroupOrder::SetState { state: GroupStateType::Playing });
    orders.push(GroupOrder::SetPlaying { playing: true });
    orders.push(GroupOrder::SetWaitingResumePlaying { playing: true });
    orders.push(GroupOrder::ClearPendingPosition);
    orders.push(GroupOrder::SetPositionBase { time: now.plus_milliseconds(wait) });
    orders.push(GroupOrder::Touch);
    orders.push(
        GroupOrder::BroadcastCommand {
            command: SendCommandType::Unpause,
            position: CommandPosition::Start,
            delay_ms,
        },
    );
    orders.push(GroupOrder::BroadcastStateUpdate { cause: "Unpause" });
    orders
}

/// The orders that pause a group.
pub open spec fn pause_orders() -> Seq<GroupOrder> {
    seq![
        GroupOrder::Freeze,
        GroupOrder::SetState { state: GroupStateType::Paused },
        GroupOrder::SetPlaying { playing: false },
        GroupOrder::SetWaitingResumePlaying { playing: false },
        GroupOrder::ClearPendingPosition,
        GroupOrder::Touch,
        GroupOrder::BroadcastCommand {
            command: SendCommandType::Pause,
            position: CommandPosition::Frozen,
            delay_ms: 0,
        },
        GroupOrder::BroadcastStateUpdate { cause: "Pause" },
    ]
}

/// Pauses a group at the position that it has reached.
pub fn pause() -> (r: Vec<GroupOrder>)
    ensures
        r@ == pause_orders(),
{
    let mut orders: Vec<GroupOrder> = Vec::new();
    orders.push(GroupOrder::Freeze);
    orders.push(GroupOrder::SetState { state: GroupStateType::Paused });
    orders.push(GroupOrder::SetPlaying { playing: false });
    orders.push(GroupOrder::SetWaitingResumePlaying { playing: false });
    orders.push(GroupOrder::ClearPendingPosition);
    orders.push(GroupOrder::Touch);
    orders.push(
        GroupOrder::BroadcastCommand {
            command: SendCommandType::Pause,
            position: CommandPosition::Frozen,
            delay_ms: 0,
        },
    );
    orders.push(GroupOrder::BroadcastStateUpdate { cause: "Pause" });
    orders
}

/// The orders that stop a group and tell its sessions.
pub open spec fn stop_request_orders() -> Seq<GroupOrder> {
    stop_orders() + seq![
        GroupOrder::Touch,
        stop_command(),
        GroupOrder::BroadcastStateUpdate { cause: "Stop" },
    ]
}

/// Stops a group.
pub fn stop() -> (r: Vec<GroupOrder>)
    ensures
        r@ == stop_request_orders(),
{
    let mut orders: Vec<GroupOrder> = Vec::new();
    push_stop_orders(&mut orders);
    orders.push(GroupOrder::Touch);
    orders.push(
        GroupOrder::BroadcastCommand {
            command: SendCommandType::Stop,
            position: CommandPosition::Nowhere,
            delay_ms: 0,
        },
    );
    orders.push(GroupOrder::BroadcastStateUpdate { cause: "Stop" });
    orders
}

/// The orders that let a group play from another position.
pub open spec fn seek_orders(position_ticks: i64) -> Seq<GroupOrder> {
    seq![
        GroupOrder::SetPosition {
            ticks: if position_ticks > 0 {
                position_ticks
            } else {
                0
            },
        },
        GroupOrder::PendStartPosition,
        GroupOrder::TransitionToWaiting { resume: ResumePlaying::IfPlaying },
        GroupOrder::Touch,
        GroupOrder::BroadcastCommand {
            command: SendCommandType::Seek,
            position: CommandPosition::Start,
            delay_ms: 0,
        },
        GroupOrder::BroadcastStateUpdate { cause: "Seek" },
    ]
}

/// Lets a group play from another position; one before the start is the start.
pub fn seek(position_ticks: i64) -> (r: Vec<GroupOrder>)
    ensures
        r@ == seek_orders(position_ticks),
{
    let ticks: i64 = if position_ticks > 0 {
        position_ticks
    } else {
        0
    };
    let mut orders: Vec<GroupOrder> = Vec::new();
    orders.push(GroupOrder::SetPosition { ticks });
    orders.push(GroupOrder::PendStartPosition);
    orders.push(GroupOrder::TransitionToWaiting { resume: ResumePlaying::IfPlaying });
    orders.push(GroupOrder::Touch);
    orders.push(
        GroupOrder::BroadcastCommand {
            command: SendCommandType::Seek,
            position: CommandPosition::Start,
            delay_ms: 0,
        },
    );
    orders.push(GroupOrder::BroadcastStateUpdate { cause: "Seek" });
    orders
}

/// How far ahead of the clock a time of a client may lie, in milliseconds.
pub const MAX_CLIENT_LEAD_MS: i64 = 2_000;

/// How far behind the last one a time of a client may lie, in milliseconds.
pub const MAX_CLIENT_LAG_MS: i64 = 500;

/// A time of a client, but not more than two seconds ahead of `now`.
pub open spec fn sanitized(time: Timestamp, now: Timestamp) -> Timestamp {
    if time.is_after(now.later_by(MAX_CLIENT_LEAD_MS as int)) {
        now.later_by(MAX_CLIENT_LEAD_MS as int)
    } else {
        time
    }
}

/// A time of a client, but not more than two seconds ahead of `now`.
pub fn sanitize_client_when_at(time: Timestamp, now: Timestamp) -> (r: Timestamp)
    requires
        now.is_date(),
    ensures
        r == sanitized(time, now),
{
    let max_future = now.plus_milliseconds(MAX_CLIENT_LEAD_MS);
    if time.lies_after(max_future) {
        max_future
    } else {
        time
    }
}

/// Whether a time is one that the clock can give: a date since the Unix epoch and in no leap
/// second.
pub open spec fn is_clock_time(time: Timestamp) -> bool {
    time.is_date() && time.secs >= 0 && !time.is_leap()
}

/// A time of a client, but not more than two seconds ahead of the clock.
pub fn sanitize_client_when(time: Timestamp) -> (r: Timestamp)
    ensures
        exists|now: Timestamp|
            is_clock_time(now) && r == #[trigger] sanitized(time, now),
{
    let now = Timestamp::now();
    let sane = sanitize_client_when_at(time, now);
    assert(sane == sanitized(time, now));
    sane
}

/// Whether a time of a client lies more than half a second before the last one.
pub open spec fn is_stale(last: Option<Timestamp>, time: Timestamp) -> bool {
    last matches Some(last) && last.is_after(time.later_by(MAX_CLIENT_LAG_MS as int))
}

/// Whether a time of a client lies more than half a second before the last one.
pub fn is_stale_client_update(last_client_when: Option<Timestamp>, time: Timestamp) -> (r: bool)
    requires
        time.subsec_nanos < 2 * NANOS_PER_SECOND,
        time.secs < i64::MAX,
    ensures
        r == is_stale(last_client_when, time),
{
    match last_client_when {
        Some(last) => last.lies_after(time.plus_milliseconds(MAX_CLIENT_LAG_MS)),
        None => false,
    }
}

/// Whether a client takes another entry than the current one for the one that is playing.
pub open spec fn is_mistaken(q: PlayQueue, playlist_item_id: u128) -> bool {
    q.current() matches Some(item) && item.playlist_item_id != playlist_item_id
}

/// Whether the session of a client has to be told of the current entry, as the client takes
/// another one for it.
pub fn try_send_playlist_correction(q: &PlayQueue, expected_playlist_item_id: u128) -> (r: bool)
    ensures
        r == is_mistaken(*q, expected_playlist_item_id),
{
    match q.current_id() {
        Some(id) => id != expected_playlist_item_id,
        None => false,
    }
}

/// What a group knows of a session that plays along.
#[derive(Debug, Clone, Copy, PartialEq, Eq, Structural)]
pub struct Member {
    pub last_client_when: Option<Timestamp>,
    pub is_buffering: bool,
}

/// What becomes of the report of a client.
#[derive(Debug, Clone, Copy, PartialEq, Eq, Structural)]
pub enum ClientReport {
    /// The session is told of the current entry, and nothing else happens.
    Correct,
    /// The report is too old, and nothing happens.
    Ignore,
    /// The report counts, as of a time; the session is as given, if it plays along.
    Accept { time: Timestamp, member: Option<Member> },
}

/// What becomes of the report of a client that it is buffering, or not.
pub open spec fn judged(
    q: PlayQueue,
    playlist_item_id: u128,
    member: Option<Member>,
    time: Timestamp,
    is_buffering: bool,
) -> ClientReport {
    if is_mistaken(q, playlist_item_id) {
        ClientReport::Correct
    } else {
        match member {
            Some(known) => if is_stale(known.last_client_when, time) {
                ClientReport::Ignore
            } else {
                ClientReport::Accept {
                    time,
                    member: Some(Member { last_client_when: Some(time), is_buffering }),
                }
            },
            None => ClientReport::Accept { time, member: None },
        }
    }
}

/// Judges the report of a client that it is buffering, or not, at a time that is sane.
pub fn judge_report(
    q: &PlayQueue,
    playlist_item_id: u128,
    member: Option<Member>,
    time: Timestamp,
    is_buffering: bool,
) -> (r: ClientReport)
    requires
        time.subsec_nanos < 2 * NANOS_PER_SECOND,
        time.secs < i64::MAX,
    ensures
        r == judged(*q, playlist_item_id, member, time, is_buffering),
{
    if try_send_playlist_correction(q, playlist_item_id) {
        return ClientReport::Correct;
    }
    match member {
        Some(known) => if is_stale_client_update(known.last_client_when, time) {
            ClientReport::Ignore
        } else {
            ClientReport::Accept {
                time,
                member: Some(Member { last_client_when: Some(time), is_buffering }),
            }
        },
        None => ClientReport::Accept { time, member: None },
    }
}

/// Judges the report of a client that it is buffering, or not, at a time that may lie ahead of
/// `now`.
pub fn take_report_at(
    q: &PlayQueue,
    playlist_item_id: u128,
    member: Option<Member>,
    time: Timestamp,
    is_buffering: bool,
    now: Timestamp,
) -> (r: ClientReport)
    requires
        time.is_date(),
        now.is_date(),
    ensures
        r == judged(*q, playlist_item_id, member, sanitized(time, now), is_buffering),
{
    let sane = sanitize_client_when_at(time, now);
    judge_report(q, playlist_item_id, member, sane, is_buffering)
}

/// Judges the report of a client that it is buffering, or not, at a time that may lie ahead of the
/// clock.
pub fn take_report(
    q: &PlayQueue,
    playlist_item_id: u128,
    member: Option<Member>,
    time: Timestamp,
    is_buffering: bool,
) -> (r: ClientReport)
    requires
        time.is_date(),
    ensures
        exists|now: Timestamp|
            is_clock_time(now) && r == judged(
                *q,
                playlist_item_id,
                member,
                #[trigger] sanitized(time, now),
                is_buffering,
            ),
{
    let now = Timestamp::now();
    let report = take_report_at(q, playlist_item_id, member, time, is_buffering, now);
    assert(report == judged(*q, playlist_item_id, member, sanitized(time, now), is_buffering));
    report
}

/// What a group has to do first when one of its sessions buffers.
pub open spec fn first_buffering_orders(
    state: GroupStateType,
    has_pending_position: bool,
    time: Timestamp,
) -> Seq<GroupOrder> {
    if !has_pending_position && state != GroupStateType::Waiting {
        seq![GroupOrder::FreezeAndPend { time }]
    } else {
        Seq::empty()
    }
}

/// What a group has to do first when one of its sessions buffers: unless it waits already or has
/// a position to wait at, it freezes.
pub fn buffering(state: GroupStateType, has_pending_position: bool, time: Timestamp) -> (r: Vec<
    GroupOrder,
>)
    ensures
        r@ == first_buffering_orders(state, has_pending_position, time),
{
    let mut orders: Vec<GroupOrder> = Vec::new();
    if !has_pending_position && state != GroupStateType::Waiting {
        orders.push(GroupOrder::FreezeAndPend { time });
    }
    orders
}

/// The orders that bring the time of the last update forward, if they do.
pub open spec fn update_orders(last_updated_at: Timestamp, time: Timestamp) -> Seq<GroupOrder> {
    if time.is_after(last_updated_at) {
        seq![GroupOrder::SetLastUpdated { time }]
    } else {
        Seq::empty()
    }
}

/// What a group does then when one of its sessions buffers: it waits.
pub open spec fn buffering_orders(
    state: GroupStateType,
    has_pending_position: bool,
    is_playing: bool,
    last_updated_at: Timestamp,
    time: Timestamp,
) -> Seq<GroupOrder> {
    seq![GroupOrder::SetPlaying { playing: is_playing }] + (if state == GroupStateType::Waiting {
        if has_pending_position {
            Seq::empty()
        } else {
            seq![GroupOrder::PendStartPosition]
        }
    } else {
        seq![
            GroupOrder::SetState { state: GroupStateType::Waiting },
            GroupOrder::SetWaitingResumePlaying { playing: is_playing },
        ]
    }) + update_orders(last_updated_at, time) + seq![
        GroupOrder::Touch,
        GroupOrder::BroadcastStateUpdate { cause: "Buffer" },
    ]
}

/// What a group does then when one of its sessions buffers: it waits. The state and the position
/// to wait at are those after the first orders.
pub fn wait_for_buffering(
    state: GroupStateType,
    has_pending_position: bool,
    is_playing: bool,
    last_updated_at: Timestamp,
    time: Timestamp,
) -> (r: Vec<GroupOrder>)
    ensures
        r@ == buffering_orders(state, has_pending_position, is_playing, last_updated_at, time),
{
    let mut orders: Vec<GroupOrder> = Vec::new();
    orders.push(GroupOrder::SetPlaying { playing: is_playing });
    if state == GroupStateType::Waiting {
        if !has_pending_position {
            orders.push(GroupOrder::PendStartPosition);
        }
    } else {
        orders.push(GroupOrder::SetState { state: GroupStateType::Waiting });
        orders.push(GroupOrder::SetWaitingResumePlaying { playing: is_playing });
    }
    if time.lies_after(last_updated_at) {
        orders.push(GroupOrder::SetLastUpdated { time });
    }
    orders.push(GroupOrder::Touch);
    orders.push(GroupOrder::BroadcastStateUpdate { cause: "Buffer" });
    assert(orders@ =~= buffering_orders(
        state,
        has_pending_position,
        is_playing,
        last_updated_at,
        time,
    ));
    orders
}

/// What a group does when one of its sessions is ready.
pub open spec fn ready_orders(
    state: GroupStateType,
    has_pending_position: bool,
    is_playing: bool,
    last_updated_at: Timestamp,
    time: Timestamp,
) -> Seq<GroupOrder> {
    if !has_pending_position && state != GroupStateType::Waiting {
        seq![GroupOrder::SetPlaying { playing: is_playing }] + update_orders(
            last_updated_at,
            time,
        ) + seq![GroupOrder::Touch]
    } else {
        seq![GroupOrder::SetState { state: GroupStateType::Waiting }] + (if has_pending_position {
            Seq::empty()
        } else {
            seq![GroupOrder::PendStartPosition]
        }) + update_orders(last_updated_at, time) + seq![
            GroupOrder::Touch,
            GroupOrder::ResolveWaiting { cause: "Ready" },
        ]
    }
}

/// What a group does when one of its sessions is ready: if it waits, it may play on.
pub fn ready(
    state: GroupStateType,
    has_pending_position: bool,
    is_playing: bool,
    last_updated_at: Timestamp,
    time: Timestamp,
) -> (r: Vec<GroupOrder>)
    ensures
        r@ == ready_orders(state, has_pending_position, is_playing, last_updated_at, time),
{
    let mut orders: Vec<GroupOrder> = Vec::new();
    let plays_on = !has_pending_position && state != GroupStateType::Waiting;
    if plays_on {
        orders.push(GroupOrder::SetPlaying { playing: is_playing });
    } else {
        orders.push(GroupOrder::SetState { state: GroupStateType::Waiting });
        if !has_pending_position {
            orders.push(GroupOrder::PendStartPosition);
        }
    }
    if time.lies_after(last_updated_at) {
        orders.push(GroupOrder::SetLastUpdated { time });
    }
    orders.push(GroupOrder::Touch);
    if !plays_on {
        orders.push(GroupOrder::ResolveWaiting { cause: "Ready" });
    }
    assert(orders@ =~= ready_orders(
        state,
        has_pending_position,
        is_playing,
        last_updated_at,
        time,
    ));
    orders
}

/// What a group does once a session has said whether it is to be waited for.
pub fn set_ignore_wait() -> (r: Vec<GroupOrder>)
    ensures
        r@ == seq![GroupOrder::Touch, GroupOrder::ResolveWaiting { cause: "IgnoreWait" }],
{
    let mut orders: Vec<GroupOrder> = Vec::new();
    orders.push(GroupOrder::Touch);
    orders.push(GroupOrder::ResolveWaiting { cause: "IgnoreWait" });
    orders
}

/// The orders that follow a step in the queue, if there was an entry to go to.
pub open spec fn navigation_orders(
    found: bool,
    queue_reason: PlayQueueUpdateReason,
    state_reason: &'static str,
) -> Seq<GroupOrder> {
    if found {
        other_item_orders(queue_reason, state_reason)
    } else {
        Seq::empty()
    }
}

/// Lets a group go to the next or the previous entry. An empty queue stays as it is.
pub fn navigate_playlist(
    q: &mut PlayQueue,
    playlist_item_id: Option<u128>,
    direction: Direction,
    queue_reason: PlayQueueUpdateReason,
    state_reason: &'static str,
) -> (r: Vec<GroupOrder>)
    ensures
        final(q).playlist@ == old(q).playlist@,
        exists|found: bool| #[trigger]
            queue::is_navigated(*old(q), playlist_item_id, direction, found, *final(q)) && r@
                == navigation_orders(found, queue_reason, state_reason),
        old(q).is_valid() ==> final(q).is_valid(),
{
    let found = q.navigate(playlist_item_id, direction);
    let orders = if found {
        other_item(queue_reason, state_reason)
    } else {
        Vec::new()
    };
    assert(queue::is_navigated(*old(q), playlist_item_id, direction, found, *q));
    assert(orders@ == navigation_orders(found, queue_reason, state_reason));
    orders
}

/// Lets a group go to the next entry.
pub fn next_item(q: &mut PlayQueue, playlist_item_id: Option<u128>) -> (r: Vec<GroupOrder>)
    ensures
        final(q).playlist@ == old(q).playlist@,
        exists|found: bool| #[trigger]
            queue::is_navigated(
                *old(q),
                playlist_item_id,
                Direction::Next,
                found,
                *final(q),
            ) && r@ == navigation_orders(found, PlayQueueUpdateReason::NextItem, "NextItem"),
        old(q).is_valid() ==> final(q).is_valid(),
{
    navigate_playlist(
        q,
        playlist_item_id,
        Direction::Next,
        PlayQueueUpdateReason::NextItem,
        "NextItem",
    )
}

/// Lets a group go to the previous entry.
pub fn previous_item(q: &mut PlayQueue, playlist_item_id: Option<u128>) -> (r: Vec<GroupOrder>)
    ensures
        final(q).playlist@ == old(q).playlist@,
        exists|found: bool| #[trigger]
            queue::is_navigated(
                *old(q),
                playlist_item_id,
                Direction::Previous,
                found,
                *final(q),
            ) && r@ == navigation_orders(found, PlayQueueUpdateReason::PreviousItem, "PreviousItem"),
        old(q).is_valid() ==> final(q).is_valid(),
{
    navigate_playlist(
        q,
        playlist_item_id,
        Direction::Previous,
        PlayQueueUpdateReason::PreviousItem,
        "PreviousItem",
    )
}

/// What a group does once its repeat mode was set.
pub fn set_repeat_mode() -> (r: Vec<GroupOrder>)
    ensures
        r@ == queue_orders(PlayQueueUpdateReason::RepeatMode),
{
    queue_changed(PlayQueueUpdateReason::RepeatMode)
}

/// What a group does once its shuffle mode was set.
pub fn set_shuffle_mode() -> (r: Vec<GroupOrder>)
    ensures
        r@ == queue_orders(PlayQueueUpdateReason::ShuffleMode),
{
    queue_changed(PlayQueueUpdateReason::ShuffleMode)
}

/// What a group does once the delay of a session was set.
pub fn ping() -> (r: Vec<GroupOrder>)
    ensures
        r@ == seq![GroupOrder::Touch],
{
    let mut orders: Vec<GroupOrder> = Vec::new();
    orders.push(GroupOrder::Touch);
    orders
}

/// The times at which a request for the time came in and was answered.
pub struct UtcTimeResponse {
    pub request_reception_time: Timestamp,
    pub response_transmission_time: Timestamp,
}

/// The times of the clock at which a request for the time comes in and is answered.
pub fn get_utc_time() -> (r: UtcTimeResponse)
    ensures
        is_clock_time(r.request_reception_time),
        is_clock_time(r.response_transmission_time),
{
    let request_reception_time = Timestamp::now();
    let response_transmission_time = Timestamp::now();
    utc_times(request_reception_time, response_transmission_time)
}

/// What is told of a request for the time that came in at `received` and is answered at `sent`.
/// The clock may be set in between, so that `sent` need not be the later one.
pub fn utc_times(received: Timestamp, sent: Timestamp) -> (r: UtcTimeResponse)
    ensures
        r == (UtcTimeResponse {
            request_reception_time: received,
            response_transmission_time: sent,
        }),
{
    UtcTimeResponse { request_reception_time: received, response_transmission_time: sent }
}

/// Whether a request that needs access to a library goes on.
#[derive(Debug, Clone, Copy, PartialEq, Eq, Structural)]
pub enum AccessGate {
    /// It goes on.
    Proceed,
    /// The session is told that it has no access, and the request ends with a status.
    Deny(u16),
    /// The request ends with a status.
    Answer(u16),
}

/// Whether a request of a session goes on: where the session is in a group, its users need access.
pub open spec fn gate_for(access: Option<Result<bool, u16>>) -> AccessGate {
    match access {
        None => AccessGate::Proceed,
        Some(Ok(true)) => AccessGate::Proceed,
        Some(Ok(false)) => AccessGate::Deny(status::NO_CONTENT),
        Some(Err(code)) => AccessGate::Answer(code),
    }
}

/// Whether a request of a session goes on: where the session is in a group, its users need access.
pub fn gate(access: Option<Result<bool, u16>>) -> (r: AccessGate)
    ensures
        r == gate_for(access),
{
    match access {
        None => AccessGate::Proceed,
        Some(Ok(granted)) => if granted {
            AccessGate::Proceed
        } else {
            AccessGate::Deny(status::NO_CONTENT)
        },
        Some(Err(code)) => AccessGate::Answer(code),
    }
}

/// What is answered once a group was created, or not.
pub fn create_group(created: bool) -> (r: Result<(), u16>)
    ensures
        r == if created {
            Ok::<(), u16>(())
        } else {
            Err(status::CONFLICT)
        },
{
    if created {
        Ok(())
    } else {
        Err(status::CONFLICT)
    }
}

/// What is answered once a session has joined a group, or not.
pub fn join_group(joined: bool) -> (r: u16)
    ensures
        r == if joined {
            status::NO_CONTENT
        } else {
            status::CONFLICT
        },
{
    if joined {
        status::NO_CONTENT
    } else {
        status::CONFLICT
    }
}

/// The places of the groups to which access is granted, from `from` on.
pub open spec fn visible_from(access: Seq<Result<bool, u16>>, from: int) -> Seq<usize>
    decreases access.len() - from,
{
    if from >= access.len() {
        Seq::empty()
    } else if access[from] == Ok::<bool, u16>(true) {
        seq![from as usize] + visible_from(access, from + 1)
    } else {
        visible_from(access, from + 1)
    }
}

/// The first of the statuses with which a check of access ended.
pub open spec fn first_failure(access: Seq<Result<bool, u16>>) -> Option<u16>
    decreases access.len(),
{
    if access.len() == 0 {
        None
    } else {
        match first_failure(access.drop_last()) {
            Some(code) => Some(code),
            None => match access.last() {
                Ok(_) => None,
                Err(code) => Some(code),
            },
        }
    }
}

/// Which groups are listed, by whether access to each of them is granted; a check that failed ends
/// the request.
pub fn list_groups(access: &Vec<Result<bool, u16>>) -> (r: Result<Vec<usize>, u16>)
    ensures
        match first_failure(access@) {
            Some(code) => r matches Err(e) && e == code,
            None => r matches Ok(places) && places@ == visible_from(access@, 0),
        },
{
    let mut places: Vec<usize> = Vec::new();
    let mut i: usize = 0;
    assert(access@.take(0) =~= Seq::empty());
    assert(places@ + visible_from(access@, 0) =~= visible_from(access@, 0));
    while i < access.len()
        invariant
            i <= access.len(),
            first_failure(access@.take(i as int)) is None,
            places@ + visible_from(access@, i as int) == visible_from(access@, 0),
        decreases access.len() - i,
    {
        assert(access@.take(i + 1).drop_last() =~= access@.take(i as int));
        let ghost so_far = places@;
        match access[i] {
            Ok(granted) => if granted {
                places.push(i);
                assert(places@ + visible_from(access@, i + 1) =~= so_far + (seq![i]
                    + visible_from(access@, i + 1)));
            },
            Err(code) => {
                proof {
                    lemma_first_failure(access@, i as int);
                }
                return Err(code);
            },
        }
        i = i + 1;
    }
    assert(access@.take(i as int) =~= access@);
    assert(places@ =~= visible_from(access@, 0));
    Ok(places)
}

proof fn lemma_first_failure(access: Seq<Result<bool, u16>>, i: int)
    requires
        0 <= i < access.len(),
        first_failure(access.take(i)) is None,
        access[i] is Err,
    ensures
        first_failure(access) == Some(access[i]->Err_0),
    decreases access.len(),
{
    if i == access.len() - 1 {
        assert(access.drop_last() =~= access.take(i));
    } else {
        assert(access.drop_last().take(i) =~= access.take(i));
        lemma_first_failure(access.drop_last(), i);
    }
}

/// The group that a request asks for: `None` where its identifier is not a UUID.
pub fn get_group(group_id: &str) -> (r: Option<u128>)
    ensures
        r == media_storage_service::parsed_uuid(group_id@),
{
    media_storage_service::parse_uuid(group_id)
}

/// What is answered to a request for a group.
pub open spec fn status_of_group(found: bool, access: Result<bool, u16>) -> u16 {
    if !found {
        status::NOT_FOUND
    } else {
        match access {
            Ok(true) => status::OK,
            Ok(false) => status::NOT_FOUND,
            Err(code) => code,
        }
    }
}

/// What is answered to a request for a group.
pub fn group_status(found: bool, access: Result<bool, u16>) -> (r: u16)
    ensures
        r == status_of_group(found, access),
{
    if !found {
        return status::NOT_FOUND;
    }
    match access {
        Ok(granted) => if granted {
            status::OK
        } else {
            status::NOT_FOUND
        },
        Err(code) => code,
    }
}

/// Who a request comes from, as far as that could be found out.
pub struct RequestIdentity {
    /// The token of the authorization, if there is an authorization and it has one.
    pub token: Option<String>,
    pub user_id: Option<String>,
    pub device_id: Option<String>,
}

/// The session of a request.
pub struct SessionContext {
    pub user_id: String,
    pub session_id: String,
}

/// The identifier of the session of a user on a device, or with a token alone.
pub open spec fn session_id_text(
    user_id: Seq<char>,
    device_id: Option<Seq<char>>,
    token: Seq<char>,
) -> Seq<char> {
    match device_id {
        Some(device_id) => if device_id.len() > 0 {
            user_id + ":"@ + device_id + ":"@ + token
        } else {
            user_id + ":token:"@ + token
        },
        None => user_id + ":token:"@ + token,
    }
}

fn session_id(user_id: &String, device_id: &Option<String>, token: &String) -> (r: String)
    ensures
        r@ == session_id_text(
            user_id@,
            text::optional_string(*device_id),
            token@,
        ),
{
    match device_id {
        Some(device_id) => if !device_id.as_str().is_empty() {
            user_id.clone().concat(":").concat(device_id.as_str()).concat(":").concat(
                token.as_str(),
            )
        } else {
            user_id.clone().concat(":token:").concat(token.as_str())
        },
        None => user_id.clone().concat(":token:").concat(token.as_str()),
    }
}

/// Whether a session is that of a request, or a status is the one to answer with.
pub open spec fn is_context_of(
    identity: Option<RequestIdentity>,
    context: Result<SessionContext, u16>,
) -> bool {
    match identity {
        None => context == Err::<SessionContext, u16>(status::INTERNAL_SERVER_ERROR),
        Some(identity) => match (identity.token, identity.user_id) {
            (Some(token), Some(user_id)) => context matches Ok(session) && session.user_id@
                == user_id@ && session.session_id@ == session_id_text(
                user_id@,
                text::optional_string(identity.device_id),
                token@,
            ),
            _ => context == Err::<SessionContext, u16>(status::UNAUTHORIZED),
        },
    }
}

/// The session of a request, or the status to answer with; `None` is given where it could not be
/// found out who the request comes from.
pub fn session_context(identity: Option<RequestIdentity>) -> (r: Result<SessionContext, u16>)
    ensures
        is_context_of(identity, r),
{
    let identity = match identity {
        Some(identity) => identity,
        None => return Err(status::INTERNAL_SERVER_ERROR),
    };
    match (identity.token, identity.user_id) {
        (Some(token), Some(user_id)) => {
            let session_id = session_id(&user_id, &identity.device_id, &token);
            Ok(SessionContext { user_id, session_id })
        },
        _ => Err(status::UNAUTHORIZED),
    }
}

/// A message of a client on its socket.
pub enum InboundMessage<'a> {
    /// A text, with the type that it gives itself if it can be read.
    Text { message_type: Option<&'a str> },
    Ping,
    Close,
    Other,
}

/// What is done on a message of a client.
#[derive(Debug, Clone, Copy, PartialEq, Eq, Structural)]
pub enum InboundAction {
    /// The client is told that the connection is alive.
    KeepAlive,
    /// The ping is answered.
    Pong,
    /// The socket is closed.
    Close,
    Nothing,
}

/// What is done on a message of a client.
pub open spec fn action_on(message: InboundMessage) -> InboundAction {
    match message {
        InboundMessage::Text { message_type: Some(kind) } => if text::ascii_lower_all(kind@)
            == text::ascii_lower_all("KeepAlive"@) {
            InboundAction::KeepAlive
        } else {
            InboundAction::Nothing
        },
        InboundMessage::Text { message_type: None } => InboundAction::Nothing,
        InboundMessage::Ping => InboundAction::Pong,
        InboundMessage::Close => InboundAction::Close,
        InboundMessage::Other => InboundAction::Nothing,
    }
}

/// What is done on a message of a client.
pub fn inbound_action(message: InboundMessage) -> (r: InboundAction)
    ensures
        r == action_on(message),
{
    match message {
        InboundMessage::Text { message_type: Some(kind) } => if text::eq_ignore_ascii_case(
            kind,
            "KeepAlive",
        ) {
            InboundAction::KeepAlive
        } else {
            InboundAction::Nothing
        },
        InboundMessage::Text { message_type: None } => InboundAction::Nothing,
        InboundMessage::Ping => InboundAction::Pong,
        InboundMessage::Close => InboundAction::Close,
        InboundMessage::Other => InboundAction::Nothing,
    }
}

/// The user is read back out of the identifier of a session, as long as the identifier of the user
/// is not empty and holds no colon.
pub proof fn law_user_is_read_out_of_session_id(
    user_id: Seq<char>,
    device_id: Option<Seq<char>>,
    token: Seq<char>,
)
    requires
        user_id.len() > 0,
        !user_id.contains(':'),
    ensures
        crate::handlers::syncplay::access::session_user(
            session_id_text(user_id, device_id, token),
        ) == Some(user_id),
{
    reveal_strlit(":");
    reveal_strlit(":token:");
    let id = session_id_text(user_id, device_id, token);
    let n = user_id.len() as int;
    assert(id[n] == ':');
    assert forall|i: int| 0 <= i < n implies id[i] != ':' by {
        assert(id[i] == user_id[i]);
        if user_id[i] == ':' {
            assert(user_id.contains(':'));
        }
    }
    text::lemma_until(id, ':', n);
    assert(id.take(n) =~= user_id);
}

/// A time that was made sane is never more than two seconds ahead, and making it sane again
/// changes nothing.
pub proof fn law_sane_times_stay(time: Timestamp, now: Timestamp)
    requires
        now.is_date(),
    ensures
        !sanitized(time, now).is_after(now.later_by(2_000)),
        sanitized(sanitized(time, now), now) == sanitized(time, now),
        !sanitized(time, now).is_after(time),
{
}

/// Reports that count never go back by more than half a second.
pub proof fn law_accepted_reports_do_not_go_back(
    q: PlayQueue,
    playlist_item_id: u128,
    member: Member,
    time: Timestamp,
    is_buffering: bool,
)
    ensures
        judged(q, playlist_item_id, Some(member), time, is_buffering) matches ClientReport::Accept {
            time: accepted,
            member: after,
        } ==> {
            &&& accepted == time
            &&& after == Some(Member { last_client_when: Some(time), is_buffering })
            &&& member.last_client_when matches Some(last) ==> !last.is_after(
                time.later_by(MAX_CLIENT_LAG_MS as int),
            )
        },
{
}

/// What is known of a group: its state, whether it plays, whether there is a position to wait at
/// and whether it plays on once nobody has to be waited for.
pub ghost struct GroupFields {
    pub state: Option<GroupStateType>,
    pub playing: Option<bool>,
    pub pending: Option<bool>,
    pub resume: Option<bool>,
}

/// What is known of a group after an order. Of an order that goes by more than these fields only
/// what it names is known.
pub open spec fn after_order(fields: GroupFields, order: GroupOrder) -> GroupFields {
    match order {
        GroupOrder::PendStartPosition => GroupFields { pending: Some(true), ..fields },
        GroupOrder::PendPosition { .. } => GroupFields { pending: Some(true), ..fields },
        GroupOrder::ClearPendingPosition => GroupFields { pending: Some(false), ..fields },
        GroupOrder::SetPlaying { playing } => GroupFields { playing: Some(playing), ..fields },
        GroupOrder::SetState { state } => GroupFields { state: Some(state), ..fields },
        GroupOrder::SetWaitingResumePlaying { playing } => GroupFields {
            resume: Some(playing),
            ..fields
        },
        GroupOrder::Freeze => GroupFields {
            state: None,
            playing: None,
            pending: None,
            resume: None,
        },
        GroupOrder::FreezeAndPend { .. } => GroupFields {
            state: None,
            playing: None,
            pending: Some(true),
            resume: None,
        },
        GroupOrder::TransitionToWaiting { .. } => GroupFields {
            state: Some(GroupStateType::Waiting),
            playing: None,
            pending: None,
            resume: None,
        },
        GroupOrder::ResolveWaiting { .. } => GroupFields {
            state: None,
            playing: None,
            pending: None,
            resume: None,
        },
        _ => fields,
    }
}

/// What is known of a group after some orders.
pub open spec fn after_orders(fields: GroupFields, orders: Seq<GroupOrder>) -> GroupFields
    decreases orders.len(),
{
    if orders.len() == 0 {
        fields
    } else {
        after_orders(after_order(fields, orders[0]), orders.drop_first())
    }
}

/// Whether a group is idle: it does not play, nor will it, and waits nowhere.
pub open spec fn is_idle(fields: GroupFields) -> bool {
    &&& fields.state == Some(GroupStateType::Idle)
    &&& fields.playing == Some(false)
    &&& fields.pending == Some(false)
    &&& fields.resume == Some(false)
}

/// A group that is stopped, and one whose queue is cleared, becomes empty or is replaced by an
/// empty one, is idle: it does not play, nor will it, and has no position to wait at.
pub proof fn law_stopped_groups_are_idle(fields: GroupFields, start_position_ticks: i64)
    ensures
        is_idle(after_orders(fields, stop_request_orders())),
        is_idle(after_orders(fields, clear_orders())),
        is_idle(after_orders(fields, remove_orders(true))),
        is_idle(after_orders(fields, new_queue_orders(start_position_ticks, true))),
{
    reveal_with_fuel(after_orders, 12);
}

/// A group that is paused is paused and does not play on, one that is unpaused plays, and neither
/// has a position to wait at.
pub proof fn law_groups_pause_and_play_on(fields: GroupFields, delay_ms: i64, now: Timestamp)
    ensures
        after_orders(fields, pause_orders()) == (GroupFields {
            state: Some(GroupStateType::Paused),
            playing: Some(false),
            pending: Some(false),
            resume: Some(false),
        }),
        after_orders(fields, unpause_orders(delay_ms, now)) == (GroupFields {
            state: Some(GroupStateType::Playing),
            playing: Some(true),
            pending: Some(false),
            resume: Some(true),
        }),
{
    reveal_with_fuel(after_orders, 9);
}

/// A group waits for its sessions once it has got a queue with entries, plays another entry or
/// plays from another position; one that still has entries when some were taken out goes on as it
/// was.
pub proof fn law_groups_wait_for_what_is_new(
    fields: GroupFields,
    ticks: i64,
    queue_reason: PlayQueueUpdateReason,
    state_reason: &'static str,
)
    ensures
        after_orders(fields, new_queue_orders(ticks, false)).state == Some(GroupStateType::Waiting),
        after_orders(fields, other_item_orders(queue_reason, state_reason)).state == Some(
            GroupStateType::Waiting,
        ),
        after_orders(fields, seek_orders(ticks)).state == Some(GroupStateType::Waiting),
        after_orders(fields, remove_orders(false)) == fields,
        after_orders(fields, queue_orders(queue_reason)) == fields,
{
    reveal_with_fuel(after_orders, 8);
}

/// Whether a group is as it is known to be.
pub open spec fn agrees(fields: GroupFields, state: GroupStateType, pending: bool) -> bool {
    &&& fields.state matches Some(known) ==> known == state
    &&& fields.pending matches Some(known) ==> known == pending
}

/// A group one of whose sessions buffers waits at a position and plays as the session says. If it
/// did not wait before, it plays on later as the session says.
pub proof fn law_groups_wait_for_buffering(
    first: GroupFields,
    state: GroupStateType,
    has_pending_position: bool,
    second: GroupFields,
    later_state: GroupStateType,
    later_pending: bool,
    is_playing: bool,
    last_updated_at: Timestamp,
    time: Timestamp,
)
    requires
        first.state == Some(state),
        first.pending == Some(has_pending_position),
        agrees(
            after_orders(first, first_buffering_orders(state, has_pending_position, time)),
            later_state,
            later_pending,
        ),
        second.state == Some(later_state),
        second.pending == Some(later_pending),
    ensures
        ({
            let fields = after_orders(
                second,
                buffering_orders(later_state, later_pending, is_playing, last_updated_at, time),
            );
            &&& fields.state == Some(GroupStateType::Waiting)
            &&& fields.playing == Some(is_playing)
            &&& fields.pending == Some(true)
            &&& fields.resume == if later_state == GroupStateType::Waiting {
                second.resume
            } else {
                Some(is_playing)
            }
        }),
{
    reveal_with_fuel(after_orders, 7);
}

/// A group that does not wait, nor has a position to wait at, goes on as its session says when that one is ready.
pub proof fn law_groups_that_do_not_wait_go_on(
    fields: GroupFields,
    state: GroupStateType,
    is_playing: bool,
    last_updated_at: Timestamp,
    time: Timestamp,
)
    requires
        state != GroupStateType::Waiting,
    ensures
        after_orders(fields, ready_orders(state, false, is_playing, last_updated_at, time)) == (
        GroupFields { playing: Some(is_playing), ..fields }),
{
    reveal_with_fuel(after_orders, 4);
}

/// Whether an order tells the sessions something.
pub open spec fn tells(order: GroupOrder) -> bool {
    order is BroadcastQueueUpdate || order is BroadcastCommand || order is BroadcastStateUpdate
}

/// What the sessions are told by some orders, in that order.
pub open spec fn told(orders: Seq<GroupOrder>) -> Seq<GroupOrder>
    decreases orders.len(),
{
    if orders.len() == 0 {
        Seq::empty()
    } else if tells(orders[0]) {
        seq![orders[0]] + told(orders.drop_first())
    } else {
        told(orders.drop_first())
    }
}

/// Whether an order concerns the position of the group or the one to wait at.
pub open spec fn places(order: GroupOrder) -> bool {
    ||| order is SetPosition
    ||| order is PendStartPosition
    ||| order is PendPosition
    ||| order is ClearPendingPosition
    ||| order is Freeze
    ||| order is FreezeAndPend
    ||| order is SetPositionBase
}

/// The orders that concern positions, in their order.
pub open spec fn placed(orders: Seq<GroupOrder>) -> Seq<GroupOrder>
    decreases orders.len(),
{
    if orders.len() == 0 {
        Seq::empty()
    } else if places(orders[0]) {
        seq![orders[0]] + placed(orders.drop_first())
    } else {
        placed(orders.drop_first())
    }
}

/// Whether the sessions are told of a change only once all of it was made, and the change was
/// noted.
pub open spec fn tells_at_the_end(orders: Seq<GroupOrder>) -> bool {
    &&& orders.contains(GroupOrder::Touch)
    &&& forall|i: int, j: int|
        0 <= i < j < orders.len() && tells(#[trigger] orders[i]) ==> tells(#[trigger] orders[j])
}

/// Whatever a request changes of a group, the sessions are told of it only once all of it was made
/// and the change was noted: they never hear of a state that the group is not in.
pub proof fn law_sessions_are_told_at_the_end(
    ticks: i64,
    is_empty: bool,
    queue_reason: PlayQueueUpdateReason,
    state_reason: &'static str,
    delay_ms: i64,
    now: Timestamp,
    state: GroupStateType,
    has_pending_position: bool,
    is_playing: bool,
    last_updated_at: Timestamp,
    time: Timestamp,
)
    ensures
        tells_at_the_end(new_queue_orders(ticks, is_empty)),
        tells_at_the_end(other_item_orders(queue_reason, state_reason)),
        tells_at_the_end(clear_orders()),
        tells_at_the_end(remove_orders(is_empty)),
        tells_at_the_end(queue_orders(queue_reason)),
        tells_at_the_end(unpause_orders(delay_ms, now)),
        tells_at_the_end(pause_orders()),
        tells_at_the_end(stop_request_orders()),
        tells_at_the_end(seek_orders(ticks)),
        tells_at_the_end(
            buffering_orders(state, has_pending_position, is_playing, last_updated_at, time),
        ),
        tells_at_the_end(
            ready_orders(state, has_pending_position, is_playing, last_updated_at, time),
        ),
{
    assert(new_queue_orders(ticks, is_empty)[4] is Touch || new_queue_orders(ticks, is_empty)[7]
        is Touch);
    assert(other_item_orders(queue_reason, state_reason)[3] is Touch);
    assert(clear_orders()[5] is Touch);
    assert(remove_orders(is_empty)[0] is Touch || remove_orders(is_empty)[5] is Touch);
    assert(queue_orders(queue_reason)[0] is Touch);
    assert(unpause_orders(delay_ms, now)[5] is Touch);
    assert(pause_orders()[5] is Touch);
    assert(stop_request_orders()[5] is Touch);
    assert(seek_orders(ticks)[3] is Touch);
    let waiting = buffering_orders(state, has_pending_position, is_playing, last_updated_at, time);
    assert(waiting[waiting.len() - 2] is Touch);
    let ready = ready_orders(state, has_pending_position, is_playing, last_updated_at, time);
    assert(ready[ready.len() - 1] is Touch || ready[ready.len() - 2] is Touch);
}

/// The sessions are told each change of the state with its cause, each change of the queue with its
/// reason, and what they have to do where they have to do something: to stop, to pause where the
/// group was frozen, to play on from its position after the given delay, or to go to its position.
pub proof fn law_sessions_are_told_what_they_need(
    ticks: i64,
    queue_reason: PlayQueueUpdateReason,
    state_reason: &'static str,
    delay_ms: i64,
    now: Timestamp,
)
    ensures
        told(pause_orders()) == seq![
            GroupOrder::BroadcastCommand {
                command: SendCommandType::Pause,
                position: CommandPosition::Frozen,
                delay_ms: 0,
            },
            GroupOrder::BroadcastStateUpdate { cause: "Pause" },
        ],
        told(unpause_orders(delay_ms, now)) == seq![
            GroupOrder::BroadcastCommand {
                command: SendCommandType::Unpause,
                position: CommandPosition::Start,
                delay_ms,
            },
            GroupOrder::BroadcastStateUpdate { cause: "Unpause" },
        ],
        told(seek_orders(ticks)) == seq![
            GroupOrder::BroadcastCommand {
                command: SendCommandType::Seek,
                position: CommandPosition::Start,
                delay_ms: 0,
            },
            GroupOrder::BroadcastStateUpdate { cause: "Seek" },
        ],
        told(stop_request_orders()) == seq![
            GroupOrder::BroadcastCommand {
                command: SendCommandType::Stop,
                position: CommandPosition::Nowhere,
                delay_ms: 0,
            },
            GroupOrder::BroadcastStateUpdate { cause: "Stop" },
        ],
        told(clear_orders()) == seq![
            GroupOrder::BroadcastQueueUpdate { reason: PlayQueueUpdateReason::RemoveItems },
            GroupOrder::BroadcastCommand {
                command: SendCommandType::Stop,
                position: CommandPosition::Nowhere,
                delay_ms: 0,
            },
            GroupOrder::BroadcastStateUpdate { cause: "RemoveFromPlaylist" },
        ],
        told(remove_orders(true)) == seq![
            GroupOrder::BroadcastQueueUpdate { reason: PlayQueueUpdateReason::RemoveItems },
            GroupOrder::BroadcastCommand {
                command: SendCommandType::Stop,
                position: CommandPosition::Nowhere,
                delay_ms: 0,
            },
            GroupOrder::BroadcastStateUpdate { cause: "Stop" },
        ],
        told(remove_orders(false)) == seq![
            GroupOrder::BroadcastQueueUpdate { reason: PlayQueueUpdateReason::RemoveItems },
        ],
        told(new_queue_orders(ticks, true)) == seq![
            GroupOrder::BroadcastQueueUpdate { reason: PlayQueueUpdateReason::NewPlaylist },
            GroupOrder::BroadcastCommand {
                command: SendCommandType::Stop,
                position: CommandPosition::Nowhere,
                delay_ms: 0,
            },
            GroupOrder::BroadcastStateUpdate { cause: "Stop" },
        ],
        told(new_queue_orders(ticks, false)) == seq![
            GroupOrder::BroadcastQueueUpdate { reason: PlayQueueUpdateReason::NewPlaylist },
            GroupOrder::BroadcastStateUpdate { cause: "Play" },
        ],
        told(other_item_orders(queue_reason, state_reason)) == seq![
            GroupOrder::BroadcastQueueUpdate { reason: queue_reason },
            GroupOrder::BroadcastStateUpdate { cause: state_reason },
        ],
        told(queue_orders(queue_reason)) == seq![
            GroupOrder::BroadcastQueueUpdate { reason: queue_reason },
        ],
{
    reveal_with_fuel(told, 12);
}

/// A group plays a new queue from the wanted position, another entry from its start, and a sought
/// position from there, but never from before the start; it waits there for its sessions. One that
/// is stopped or has no entries stands at the start and waits nowhere; one that is paused is frozen
/// where it is.
pub proof fn law_groups_play_from_where_they_should(
    ticks: i64,
    queue_reason: PlayQueueUpdateReason,
    state_reason: &'static str,
)
    ensures
        placed(new_queue_orders(ticks, false)) == seq![
            GroupOrder::SetPosition { ticks },
            GroupOrder::PendStartPosition,
        ],
        placed(other_item_orders(queue_reason, state_reason)) == seq![
            GroupOrder::SetPosition { ticks: 0 },
            GroupOrder::PendPosition { ticks: 0 },
        ],
        ticks >= 0 ==> placed(seek_orders(ticks)) == seq![
            GroupOrder::SetPosition { ticks },
            GroupOrder::PendStartPosition,
        ],
        ticks < 0 ==> placed(seek_orders(ticks)) == seq![
            GroupOrder::SetPosition { ticks: 0 },
            GroupOrder::PendStartPosition,
        ],
        placed(stop_request_orders()) == seq![
            GroupOrder::SetPosition { ticks: 0 },
            GroupOrder::ClearPendingPosition,
        ],
        placed(clear_orders()) == seq![
            GroupOrder::SetPosition { ticks: 0 },
            GroupOrder::ClearPendingPosition,
        ],
        placed(remove_orders(true)) == seq![
            GroupOrder::SetPosition { ticks: 0 },
            GroupOrder::ClearPendingPosition,
        ],
        placed(remove_orders(false)).len() == 0,
        placed(queue_orders(queue_reason)).len() == 0,
        placed(new_queue_orders(ticks, true)).skip(2) == seq![
            GroupOrder::SetPosition { ticks: 0 },
            GroupOrder::ClearPendingPosition,
        ],
        placed(pause_orders()) == seq![GroupOrder::Freeze, GroupOrder::ClearPendingPosition],
{
    reveal_with_fuel(placed, 12);
    assert(placed(new_queue_orders(ticks, true)).skip(2) =~= seq![
        GroupOrder::SetPosition { ticks: 0 },
        GroupOrder::ClearPendingPosition,
    ]);
}

/// A group that plays on does so from its position as of now, and the delay later where there is
/// one; it waits nowhere.
pub proof fn law_groups_play_on_after_the_delay(delay_ms: i64, now: Timestamp)
    requires
        -8_334_601_228_800 <= now.secs <= 8_210_266_876_799,
        now.subsec_nanos < 1_000_000_000,
    ensures
        placed(unpause_orders(delay_ms, now)).len() == 2,
        placed(unpause_orders(delay_ms, now))[0] is ClearPendingPosition,
        placed(unpause_orders(delay_ms, now))[1] matches GroupOrder::SetPositionBase { time } && {
            &&& time.subsec_nanos < 1_000_000_000
            &&& delay_ms <= 0 ==> time == now
            &&& delay_ms > 0 ==> (time.secs - now.secs) * 1_000_000_000 + (time.subsec_nanos
                - now.subsec_nanos) == delay_ms * 1_000_000
        },
{
    reveal_with_fuel(placed, 9);
    crate::time::law_milliseconds_are_counted(
        now,
        if delay_ms > 0 {
            delay_ms as int
        } else {
            0
        },
    );
}

/// A group that waits for what is new plays on afterwards if it was playing; one with a new queue
/// plays in any case.
pub proof fn law_groups_that_wait_play_on_as_before(
    ticks: i64,
    queue_reason: PlayQueueUpdateReason,
    state_reason: &'static str,
    order: GroupOrder,
)
    requires
        order is TransitionToWaiting,
    ensures
        new_queue_orders(ticks, false).contains(order) <==> order == (
        GroupOrder::TransitionToWaiting { resume: ResumePlaying::Always }),
        other_item_orders(queue_reason, state_reason).contains(order) <==> order == (
        GroupOrder::TransitionToWaiting { resume: ResumePlaying::IfPlaying }),
        seek_orders(ticks).contains(order) <==> order == (GroupOrder::TransitionToWaiting {
            resume: ResumePlaying::IfPlaying,
        }),
        !new_queue_orders(ticks, true).contains(order),
        !queue_orders(queue_reason).contains(order),
        !stop_request_orders().contains(order),
        !pause_orders().contains(order),
{
    assert(new_queue_orders(ticks, false)[3] == GroupOrder::TransitionToWaiting {
        resume: ResumePlaying::Always,
    });
    assert(other_item_orders(queue_reason, state_reason)[2] == GroupOrder::TransitionToWaiting {
        resume: ResumePlaying::IfPlaying,
    });
    assert(seek_orders(ticks)[2] == GroupOrder::TransitionToWaiting {
        resume: ResumePlaying::IfPlaying,
    });
}

/// A group that waits, or has a position to wait at, is put into waiting at a position when one of
/// its sessions is ready, and then stops to wait if nobody has to be waited for any more: that is
/// the last that is done, and it is done once.
pub proof fn law_ready_sessions_end_the_waiting(
    fields: GroupFields,
    state: GroupStateType,
    has_pending_position: bool,
    is_playing: bool,
    last_updated_at: Timestamp,
    time: Timestamp,
)
    requires
        has_pending_position || state == GroupStateType::Waiting,
        fields.state == Some(state),
        fields.pending == Some(has_pending_position),
    ensures
        ({
            let orders = ready_orders(
                state,
                has_pending_position,
                is_playing,
                last_updated_at,
                time,
            );
            let waiting = after_orders(fields, orders.drop_last());
            &&& orders.last() == (GroupOrder::ResolveWaiting { cause: "Ready" })
            &&& waiting.state == Some(GroupStateType::Waiting)
            &&& waiting.pending == Some(true)
            &&& waiting.playing == fields.playing
            &&& waiting.resume == fields.resume
            &&& forall|i: int|
                0 <= i < orders.len() - 1 ==> !((#[trigger] orders[i]) is ResolveWaiting)
                    && !tells(orders[i])
        }),
{
    let orders = ready_orders(state, has_pending_position, is_playing, last_updated_at, time);
    let first = seq![GroupOrder::SetState { state: GroupStateType::Waiting }] + (
    if has_pending_position {
        Seq::empty()
    } else {
        seq![GroupOrder::PendStartPosition]
    }) + update_orders(last_updated_at, time) + seq![GroupOrder::Touch];
    assert(orders.drop_last() =~= first);
    reveal_with_fuel(after_orders, 6);
}

/// The time of the last update is brought forward to that of a report, and never back.
pub proof fn law_updates_only_go_forward(
    state: GroupStateType,
    has_pending_position: bool,
    is_playing: bool,
    last_updated_at: Timestamp,
    time: Timestamp,
    set: Timestamp,
)
    ensures
        ({
            let is_later = time.secs > last_updated_at.secs || (time.secs == last_updated_at.secs
                && time.subsec_nanos > last_updated_at.subsec_nanos);
            let order = GroupOrder::SetLastUpdated { time: set };
            &&& ready_orders(
                state,
                has_pending_position,
                is_playing,
                last_updated_at,
                time,
            ).contains(order) <==> set == time && is_later
            &&& buffering_orders(
                state,
                has_pending_position,
                is_playing,
                last_updated_at,
                time,
            ).contains(order) <==> set == time && is_later
        }),
{
    let ready = ready_orders(state, has_pending_position, is_playing, last_updated_at, time);
    let waiting = buffering_orders(state, has_pending_position, is_playing, last_updated_at, time);
    if time.is_after(last_updated_at) {
        let order = GroupOrder::SetLastUpdated { time };
        assert(ready[1] == order || ready[2] == order);
        assert(waiting[1] == order || waiting[2] == order || waiting[3] == order);
    }
}

/// The sessions are told that a group waits because one of them buffers.
pub proof fn law_sessions_are_told_of_buffering(
    state: GroupStateType,
    has_pending_position: bool,
    is_playing: bool,
    last_updated_at: Timestamp,
    time: Timestamp,
)
    ensures
        told(
            buffering_orders(state, has_pending_position, is_playing, last_updated_at, time),
        ) == seq![GroupOrder::BroadcastStateUpdate { cause: "Buffer" }],
        first_buffering_orders(state, has_pending_position, time).contains(
            GroupOrder::FreezeAndPend { time },
        ) <==> state != GroupStateType::Waiting && !has_pending_position,
        told(first_buffering_orders(state, has_pending_position, time)).len() == 0,
{
    reveal_with_fuel(told, 7);
    let first = first_buffering_orders(state, has_pending_position, time);
    if first.len() > 0 {
        assert(first[0] == GroupOrder::FreezeAndPend { time });
    }
}

/// A report counts unless its client takes another entry for the current one or it is too old: by
/// more than half a second behind the last one. Then the session is as it says, as of its time.
pub proof fn law_reports_count_unless_mistaken_or_old(
    q: PlayQueue,
    playlist_item_id: u128,
    member: Option<Member>,
    time: Timestamp,
    is_buffering: bool,
)
    ensures
        ({
            let report = judged(q, playlist_item_id, member, time, is_buffering);
            let is_other = q.playing_item_index matches Some(i) && i < q.playlist.len()
                && q.playlist[i as int].playlist_item_id != playlist_item_id;
            let is_old = member matches Some(known) && known.last_client_when matches Some(last)
                && last.is_after(time.later_by(500));
            &&& report is Correct <==> is_other
            &&& report is Ignore <==> !is_other && is_old
            &&& report is Accept <==> !is_other && !is_old
            &&& report matches ClientReport::Accept { time: taken, member: after } ==> {
                &&& taken == time
                &&& after is Some == member is Some
                &&& after matches Some(known) ==> known.last_client_when == Some(time)
                    && known.is_buffering == is_buffering
            }
        }),
{
}

/// A time of a client counts as it is unless it lies more than two seconds ahead; then it counts as
/// two seconds ahead.
pub proof fn law_times_of_clients_count(time: Timestamp, now: Timestamp)
    ensures
        time.is_after(now.later_by(2_000)) ==> sanitized(time, now) == now.later_by(2_000),
        !time.is_after(now.later_by(2_000)) ==> sanitized(time, now) == time,
{
}

/// Exactly the groups to which access is granted are listed, in their order, unless a check failed:
/// then the first failure is answered.
pub proof fn law_listed_groups_are_accessible(access: Seq<Result<bool, u16>>)
    requires
        access.len() <= usize::MAX,
    ensures
        match first_failure(access) {
            Some(code) => exists|i: int|
                0 <= i < access.len() && (#[trigger] access[i]) == Err::<bool, u16>(code)
                    && forall|j: int| 0 <= j < i ==> (#[trigger] access[j]) is Ok,
            None => forall|i: int| 0 <= i < access.len() ==> (#[trigger] access[i]) is Ok,
        },
        forall|k: int|
            0 <= k < visible_from(access, 0).len() ==> (#[trigger] visible_from(access, 0)[k])
                < access.len() && access[visible_from(access, 0)[k] as int] == Ok::<bool, u16>(
                true,
            ),
        forall|i: int|
            0 <= i < access.len() && (#[trigger] access[i]) == Ok::<bool, u16>(true)
                ==> visible_from(access, 0).contains(i as usize),
        forall|k: int, m: int|
            0 <= k < m < visible_from(access, 0).len() ==> visible_from(access, 0)[k]
                < visible_from(access, 0)[m],
{
    lemma_first_failure_shape(access);
    lemma_visible_from(access, 0);
}

proof fn lemma_first_failure_shape(access: Seq<Result<bool, u16>>)
    ensures
        match first_failure(access) {
            Some(code) => exists|i: int|
                0 <= i < access.len() && (#[trigger] access[i]) == Err::<bool, u16>(code)
                    && forall|j: int| 0 <= j < i ==> (#[trigger] access[j]) is Ok,
            None => forall|i: int| 0 <= i < access.len() ==> (#[trigger] access[i]) is Ok,
        },
    decreases access.len(),
{
    if access.len() > 0 {
        let rest = access.drop_last();
        lemma_first_failure_shape(rest);
        match first_failure(rest) {
            Some(code) => {
                let i = choose|i: int|
                    0 <= i < rest.len() && (#[trigger] rest[i]) == Err::<bool, u16>(code)
                        && forall|j: int| 0 <= j < i ==> (#[trigger] rest[j]) is Ok;
                assert(access[i] == Err::<bool, u16>(code));
                assert forall|j: int| 0 <= j < i implies (#[trigger] access[j]) is Ok by {
                    assert(rest[j] is Ok);
                }
            },
            None => {
                assert forall|j: int| 0 <= j < rest.len() implies (#[trigger] access[j]) is Ok by {
                    assert(rest[j] is Ok);
                }
                if let Err(code) = access.last() {
                    assert(access[access.len() - 1] == Err::<bool, u16>(code));
                }
            },
        }
    }
}

proof fn lemma_visible_from(access: Seq<Result<bool, u16>>, from: int)
    requires
        0 <= from <= access.len() <= usize::MAX,
    ensures
        forall|k: int|
            0 <= k < visible_from(access, from).len() ==> from <= (#[trigger] visible_from(
                access,
                from,
            )[k]) < access.len() && access[visible_from(access, from)[k] as int] == Ok::<bool, u16>(
                true,
            ),
        forall|i: int|
            from <= i < access.len() && (#[trigger] access[i]) == Ok::<bool, u16>(true)
                ==> visible_from(access, from).contains(i as usize),
        forall|k: int, m: int|
            0 <= k < m < visible_from(access, from).len() ==> visible_from(access, from)[k]
                < visible_from(access, from)[m],
    decreases access.len() - from,
{
    if from < access.len() {
        lemma_visible_from(access, from + 1);
        let rest = visible_from(access, from + 1);
        let all = visible_from(access, from);
        if access[from] == Ok::<bool, u16>(true) {
            assert(all == seq![from as usize] + rest);
            assert forall|k: int| 0 <= k < all.len() implies from <= (#[trigger] all[k])
                < access.len() && access[all[k] as int] == Ok::<bool, u16>(true) by {
                if k > 0 {
                    assert(all[k] == rest[k - 1]);
                }
            }
            assert forall|i: int|
                from <= i < access.len() && (#[trigger] access[i]) == Ok::<bool, u16>(
                    true,
                ) implies all.contains(i as usize) by {
                if i > from {
                    let k = rest.index_of(i as usize);
                    assert(all[k + 1] == i as usize);
                } else {
                    assert(all[0] == i as usize);
                }
            }
            assert forall|k: int, m: int| 0 <= k < m < all.len() implies all[k] < all[m] by {
                assert(all[m] == rest[m - 1]);
                if k > 0 {
                    assert(all[k] == rest[k - 1]);
                }
            }
        }
    }
}

/// The identifier of a session is made of the user, the device and the token, with colons between
/// them; without a device, or with an empty one, the word `token` stands in its place.
pub proof fn law_session_id_is_made_of_its_parts(
    user_id: Seq<char>,
    device_id: Option<Seq<char>>,
    token: Seq<char>,
)
    ensures
        session_id_text(user_id, device_id, token) == user_id + seq![':'] + (if device_id is None
            || device_id->0.len() == 0 {
            seq!['t', 'o', 'k', 'e', 'n']
        } else {
            device_id->0
        }) + seq![':'] + token,
{
    reveal_strlit(":");
    reveal_strlit(":token:");
    assert(":"@ =~= seq![':']);
    assert(":token:"@ =~= seq![':'] + seq!['t', 'o', 'k', 'e', 'n'] + seq![':']);
    assert(user_id + (seq![':'] + seq!['t', 'o', 'k', 'e', 'n'] + seq![':']) + token =~= user_id
        + seq![':'] + seq!['t', 'o', 'k', 'e', 'n'] + seq![':'] + token);
}

/// A request of a session goes on where the session is in no group or its users have access; it is
/// denied without content where they have not, and a check that failed is answered as it is.
pub proof fn law_access_decides(access: Option<Result<bool, u16>>)
    ensures
        gate_for(access) == AccessGate::Proceed <==> access is None || access->0 == Ok::<bool, u16>(
            true,
        ),
        access matches Some(Ok(granted)) ==> (!granted ==> gate_for(access) == AccessGate::Deny(
            204,
        )),
        access matches Some(Err(code)) ==> gate_for(access) == AccessGate::Answer(code),
{
}

/// A group is shown exactly where it is there and access to it is granted; to anyone else it is not
/// found, but a check that failed is answered as it is.
pub proof fn law_groups_are_shown_to_those_with_access(found: bool, access: Result<bool, u16>)
    ensures
        found && access == Ok::<bool, u16>(true) ==> status_of_group(found, access) == 200,
        !found || access == Ok::<bool, u16>(false) ==> status_of_group(found, access) == 404,
        found ==> (access matches Err(code) ==> status_of_group(found, access) == code),
{
}

/// A request has a session exactly where it has both a token and a user, and the session is of that
/// user. Without either it is unauthorized, and where neither could be found out, it fails.
pub proof fn law_requests_with_token_and_user_have_a_session(
    identity: Option<RequestIdentity>,
    context: Result<SessionContext, u16>,
)
    requires
        is_context_of(identity, context),
    ensures
        context is Ok <==> identity is Some && identity->0.token is Some && identity->0.user_id
            is Some,
        context matches Ok(session) ==> {
            let device = match identity->0.device_id {
                Some(device) => device@,
                None => Seq::empty(),
            };
            &&& session.user_id@ == identity->0.user_id->0@
            &&& session.session_id@ == session.user_id@ + seq![':'] + (if device.len() > 0 {
                device
            } else {
                seq!['t', 'o', 'k', 'e', 'n']
            }) + seq![':'] + identity->0.token->0@
        },
        identity is None ==> context == Err::<SessionContext, u16>(500),
        identity is Some && context is Err ==> context == Err::<SessionContext, u16>(401),
{
    if let Ok(session) = context {
        law_session_id_is_made_of_its_parts(
            identity->0.user_id->0@,
            text::optional_string(identity->0.device_id),
            identity->0.token->0@,
        );
    }
}

/// A client that sends a text which calls itself a sign of life, in any case, is answered with one; a
/// ping is answered, a close closes, and nothing else is done.
pub proof fn law_signs_of_life_are_answered(message: InboundMessage)
    ensures
        action_on(message) == InboundAction::KeepAlive <==> (
        message matches InboundMessage::Text { message_type: Some(kind) } && text::ascii_lower_all(
            kind@,
        ) == seq!['k', 'e', 'e', 'p', 'a', 'l', 'i', 'v', 'e']),
        action_on(message) == InboundAction::Pong <==> message is Ping,
        action_on(message) == InboundAction::Close <==> message is Close,
{
    reveal_strlit("KeepAlive");
    assert(text::ascii_lower_all("KeepAlive"@) =~= seq![
        'k',
        'e',
        'e',
        'p',
        'a',
        'l',
        'i',
        'v',
        'e',
    ]);
}

/// The sessions are told why another entry plays, why an entry stands elsewhere and why there are
/// new ones; where nothing was found to do, nothing is done.
pub proof fn law_sessions_are_told_why(
    mode: GroupQueueMode,
    queue_reason: PlayQueueUpdateReason,
    state_reason: &'static str,
)
    ensures
        told(chosen_item_orders(true)) == seq![
            GroupOrder::BroadcastQueueUpdate { reason: PlayQueueUpdateReason::SetCurrentItem },
            GroupOrder::BroadcastStateUpdate { cause: "SetPlaylistItem" },
        ],
        told(moved_item_orders(true)) == seq![
            GroupOrder::BroadcastQueueUpdate { reason: PlayQueueUpdateReason::MoveItem },
        ],
        told(navigation_orders(true, queue_reason, state_reason)) == seq![
            GroupOrder::BroadcastQueueUpdate { reason: queue_reason },
            GroupOrder::BroadcastStateUpdate { cause: state_reason },
        ],
        chosen_item_orders(false).len() == 0,
        moved_item_orders(false).len() == 0,
        navigation_orders(false, queue_reason, state_reason).len() == 0,
        self::queue_reason(mode) == PlayQueueUpdateReason::Queue <==> mode == GroupQueueMode::Queue,
        self::queue_reason(mode) == PlayQueueUpdateReason::QueueNext <==> mode
            == GroupQueueMode::QueueNext,
{
    reveal_with_fuel(told, 8);
}

/// A group that gets a new queue does not play any more by the time that it begins to wait for its
/// sessions, and every report of a session is noted as a change.
pub proof fn law_new_queues_do_not_play_yet(
    fields: GroupFields,
    ticks: i64,
    state: GroupStateType,
    has_pending_position: bool,
    is_playing: bool,
    last_updated_at: Timestamp,
    time: Timestamp,
)
    ensures
        ({
            let orders = new_queue_orders(ticks, false);
            &&& orders[3] is TransitionToWaiting
            &&& after_orders(fields, orders.take(3)).playing == Some(false)
            &&& after_orders(fields, orders.take(3)).pending == Some(true)
        }),
        ready_orders(state, has_pending_position, is_playing, last_updated_at, time).contains(
            GroupOrder::Touch,
        ),
        buffering_orders(state, has_pending_position, is_playing, last_updated_at, time).contains(
            GroupOrder::Touch,
        ),
{
    reveal_with_fuel(after_orders, 5);
    let ready = ready_orders(state, has_pending_position, is_playing, last_updated_at, time);
    let waiting = buffering_orders(state, has_pending_position, is_playing, last_updated_at, time);
    assert(ready[ready.len() - 1] == GroupOrder::Touch || ready[ready.len() - 2]
        == GroupOrder::Touch);
    assert(waiting[waiting.len() - 2] == GroupOrder::Touch);
}

/// The clock gives no time before the Unix epoch and none in a leap second.
pub proof fn law_clock_times_are_plain(time: Timestamp)
    requires
        is_clock_time(time),
    ensures
        time.secs >= 0,
        time.subsec_nanos < 1_000_000_000,
        time.is_date(),
{
}

} // verus!
