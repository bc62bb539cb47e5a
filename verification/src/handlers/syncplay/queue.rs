//! The queue that a group plays.

use crate::picking;
use vstd::prelude::*;

verus! {

/// An entry of a queue.
pub struct QueueItem {
    /// The item to play.
    pub item_id: String,
    /// The identifier of the entry, which is its own even where an item is queued twice.
    pub playlist_item_id: u128,
}

impl Clone for QueueItem {
    fn clone(&self) -> (r: Self)
        ensures
            r == *self,
    {
        QueueItem { item_id: self.item_id.clone(), playlist_item_id: self.playlist_item_id }
    }
}

/// Whether a number is a random UUID: of version 4 and of the common variant.
pub open spec fn is_random_uuid(value: u128) -> bool {
    &&& (value / 0x1000_0000_0000_0000_0000) % 16 == 4
    &&& (value / 0x4000_0000_0000_0000) % 4 == 2
}

/// `uuid::Uuid::new_v4`: which random UUID it is stays open.
#[verifier::external_body]
fn random_uuid() -> (r: u128)
    ensures
        is_random_uuid(r),
{
    uuid::Uuid::new_v4().as_u128()
}

/// Whether entries are for some items, in their order.
pub open spec fn are_for(items: Seq<QueueItem>, item_ids: Seq<String>) -> bool {
    &&& items.len() == item_ids.len()
    &&& forall|i: int| 0 <= i < items.len() ==> (#[trigger] items[i]).item_id == item_ids[i]
}

/// The entries for some items with some identifiers, in their order.
pub open spec fn entries_of(item_ids: Seq<String>, ids: Seq<u128>) -> Seq<QueueItem> {
    Seq::new(
        item_ids.len(),
        |i: int| QueueItem { item_id: item_ids[i], playlist_item_id: ids[i] },
    )
}

/// Entries for some items, the one at each place with the identifier at that place.
pub fn queue_items_with(item_ids: Vec<String>, ids: &Vec<u128>) -> (r: Vec<QueueItem>)
    requires
        ids.len() == item_ids.len(),
    ensures
        r@ == entries_of(item_ids@, ids@),
{
    let mut items: Vec<QueueItem> = Vec::new();
    let mut i: usize = 0;
    while i < item_ids.len()
        invariant
            i <= item_ids.len(),
            ids.len() == item_ids.len(),
            items@ =~= entries_of(item_ids@, ids@).take(i as int),
        decreases item_ids.len() - i,
    {
        items.push(QueueItem { item_id: item_ids[i].clone(), playlist_item_id: ids[i] });
        i = i + 1;
    }
    assert(items@ =~= entries_of(item_ids@, ids@));
    items
}

/// As many identifiers as are wanted, each of them drawn anew.
fn draw_ids(count: usize) -> (r: Vec<u128>)
    ensures
        r.len() == count,
        forall|i: int| 0 <= i < r.len() ==> is_random_uuid(#[trigger] r[i]),
{
    let mut ids: Vec<u128> = Vec::new();
    while ids.len() < count
        invariant
            ids.len() <= count,
            forall|i: int| 0 <= i < ids.len() ==> is_random_uuid(#[trigger] ids[i]),
        decreases count - ids.len(),
    {
        ids.push(random_uuid());
    }
    ids
}

/// Entries for some items, each with an identifier that is drawn for it. That the identifiers
/// differ rests on chance.
pub fn new_queue_items(item_ids: Vec<String>) -> (r: Vec<QueueItem>)
    ensures
        are_for(r@, item_ids@),
        forall|i: int| 0 <= i < r.len() ==> is_random_uuid((#[trigger] r[i]).playlist_item_id),
{
    let ids = draw_ids(item_ids.len());
    let items = queue_items_with(item_ids, &ids);
    assert forall|i: int| 0 <= i < items.len() implies is_random_uuid(
        (#[trigger] items[i]).playlist_item_id,
    ) by {
        assert(is_random_uuid(ids[i]));
    }
    items
}

/// The place of the first entry with an identifier.
pub open spec fn place_of(items: Seq<QueueItem>, id: u128) -> Option<usize>
    decreases items.len(),
{
    if items.len() == 0 {
        None
    } else if items[0].playlist_item_id == id {
        Some(0)
    } else {
        match place_of(items.skip(1), id) {
            Some(i) => Some((i + 1) as usize),
            None => None,
        }
    }
}

/// Whether no two entries have one identifier.
pub open spec fn distinct_items(items: Seq<QueueItem>) -> bool {
    forall|i: int, j: int|
        0 <= i < j < items.len() ==> (#[trigger] items[i]).playlist_item_id != (
        #[trigger] items[j]).playlist_item_id
}

/// Where new entries are put.
#[derive(Debug, Clone, Copy, PartialEq, Eq, Structural)]
pub enum GroupQueueMode {
    /// Behind all others.
    Queue,
    /// Behind the one that is playing.
    QueueNext,
}

/// Which way to go in a queue.
#[derive(Debug, Clone, Copy, PartialEq, Eq, Structural)]
pub enum Direction {
    Next,
    Previous,
}

impl Direction {
    pub open spec fn delta(self) -> int {
        match self {
            Direction::Next => 1,
            Direction::Previous => -1,
        }
    }
}

/// A queue and the place of the entry that is playing.
pub struct PlayQueue {
    pub playlist: Vec<QueueItem>,
    pub playing_item_index: Option<usize>,
}

/// Whether a queue is made of new entries, with the one at `position`, or else the last one,
/// playing.
pub open spec fn is_replaced(items: Seq<QueueItem>, position: usize, after: PlayQueue) -> bool {
    &&& after.playlist@ == items
    &&& after.playing_item_index == if items.len() == 0 {
        None
    } else if position < items.len() {
        Some(position)
    } else {
        Some((items.len() - 1) as usize)
    }
}

/// Whether a queue is another one with an entry chosen to be playing; `found` says whether there
/// is such an entry.
pub open spec fn is_selected(before: PlayQueue, id: u128, found: bool, after: PlayQueue) -> bool {
    &&& after.playlist@ == before.playlist@
    &&& found == place_of(before.playlist@, id) is Some
    &&& after.playing_item_index == if found {
        place_of(before.playlist@, id)
    } else {
        before.playing_item_index
    }
}

/// Whether a queue is another one without some entries.
pub open spec fn is_removed(
    before: PlayQueue,
    ids: Seq<u128>,
    clear_playing_item: bool,
    after: PlayQueue,
) -> bool {
    &&& after.playlist@ == without_ids(before.playlist@, ids)
    &&& after.playing_item_index == if clear_playing_item {
        None
    } else {
        match before.current() {
            Some(item) => place_of(after.playlist@, item.playlist_item_id),
            None => before.playing_item_index,
        }
    }
}

/// Whether a queue is another one with an entry moved; `found` says whether there is such an entry.
pub open spec fn is_moved(
    before: PlayQueue,
    id: u128,
    new_index: usize,
    found: bool,
    after: PlayQueue,
) -> bool {
    &&& found == place_of(before.playlist@, id) is Some
    &&& !found ==> after.playlist@ == before.playlist@ && after.playing_item_index
        == before.playing_item_index
    &&& found ==> {
        &&& after.playlist@ == moved(
            before.playlist@,
            place_of(before.playlist@, id)->0 as int,
            new_index as int,
        )
        &&& after.playing_item_index == match before.current() {
            Some(item) => place_of(after.playlist@, item.playlist_item_id),
            None => before.playing_item_index,
        }
    }
}

/// Whether a queue is another one with new entries put into it.
pub open spec fn is_enqueued(
    before: PlayQueue,
    items: Seq<QueueItem>,
    mode: GroupQueueMode,
    after: PlayQueue,
) -> bool {
    &&& after.playlist@ == before.with_queued(items, mode)
    &&& after.playing_item_index == if before.playing_item_index is None && after.playlist.len()
        > 0 {
        Some(0usize)
    } else {
        before.playing_item_index
    }
}

/// Whether a queue is another one with the entry before or behind the starting one playing; `found`
/// says whether there is an entry.
pub open spec fn is_navigated(
    before: PlayQueue,
    id: Option<u128>,
    direction: Direction,
    found: bool,
    after: PlayQueue,
) -> bool {
    &&& found == (before.playlist.len() > 0)
    &&& after.playlist@ == before.playlist@
    &&& !found ==> after.playing_item_index == before.playing_item_index
    &&& found ==> {
        let start = starting_place(before.playlist@, before.playing_item_index, id);
        after.playing_item_index matches Some(i) && i == (start + direction.delta()) % (
        before.playlist.len() as int)
    }
}

proof fn lemma_place_of(items: Seq<QueueItem>, id: u128, k: int)
    requires
        0 <= k <= items.len() <= usize::MAX,
        forall|j: int| 0 <= j < k ==> (#[trigger] items[j]).playlist_item_id != id,
        k < items.len() ==> items[k].playlist_item_id == id,
    ensures
        place_of(items, id) == if k < items.len() {
            Some(k as usize)
        } else {
            None
        },
    decreases items.len(),
{
    if items.len() > 0 && k > 0 {
        let rest = items.skip(1);
        assert(items[0].playlist_item_id != id);
        assert forall|j: int| 0 <= j < k - 1 implies (#[trigger] rest[j]).playlist_item_id != id by {
            assert(rest[j] == items[j + 1]);
        }
        lemma_place_of(rest, id, k - 1);
    }
}

/// What a place that was found says.
proof fn lemma_found_place(items: Seq<QueueItem>, id: u128)
    requires
        items.len() <= usize::MAX,
    ensures
        match place_of(items, id) {
            Some(k) => k < items.len() && items[k as int].playlist_item_id == id && forall|j: int|
                0 <= j < k ==> (#[trigger] items[j]).playlist_item_id != id,
            None => forall|j: int|
                0 <= j < items.len() ==> (#[trigger] items[j]).playlist_item_id != id,
        },
    decreases items.len(),
{
    if items.len() > 0 && items[0].playlist_item_id != id {
        let rest = items.skip(1);
        lemma_found_place(rest, id);
        match place_of(rest, id) {
            Some(k) => {
                assert(items[k + 1] == rest[k as int]);
                assert forall|j: int| 0 <= j < k + 1 implies (#[trigger] items[j]).playlist_item_id
                    != id by {
                    if j > 0 {
                        assert(rest[j - 1] == items[j]);
                    }
                }
            },
            None => {
                assert forall|j: int| 0 <= j < items.len() implies (
                #[trigger] items[j]).playlist_item_id != id by {
                    if j > 0 {
                        assert(rest[j - 1] == items[j]);
                    }
                }
            },
        }
    }
}

/// The place of the first entry with an identifier.
fn find_place(items: &Vec<QueueItem>, id: u128) -> (r: Option<usize>)
    ensures
        r == place_of(items@, id),
        r matches Some(i) ==> i < items.len(),
{
    let mut i: usize = 0;
    while i < items.len() && items[i].playlist_item_id != id
        invariant
            i <= items.len(),
            forall|j: int| 0 <= j < i ==> (#[trigger] items[j]).playlist_item_id != id,
        decreases items.len() - i,
    {
        i = i + 1;
    }
    proof {
        lemma_place_of(items@, id, i as int);
    }
    if i < items.len() {
        Some(i)
    } else {
        None
    }
}

/// The entries without those with some identifiers.
pub open spec fn without_ids(items: Seq<QueueItem>, ids: Seq<u128>) -> Seq<QueueItem> {
    items.filter(|item: QueueItem| !ids.contains(item.playlist_item_id))
}

/// The entries with the one at `from` moved to `to`, or to the end.
pub open spec fn moved(items: Seq<QueueItem>, from: int, to: int) -> Seq<QueueItem> {
    let rest = items.remove(from);
    rest.insert(
        if to <= rest.len() {
            to
        } else {
            rest.len() as int
        },
        items[from],
    )
}

/// The place from which to go on: that of the given entry, else the one that is playing, else the
/// first.
pub open spec fn starting_place(
    items: Seq<QueueItem>,
    playing: Option<usize>,
    id: Option<u128>,
) -> usize {
    let given = match id {
        Some(id) => place_of(items, id),
        None => None,
    };
    match given {
        Some(i) => i,
        None => match playing {
            Some(i) => i,
            None => 0,
        },
    }
}

fn is_among(ids: &Vec<u128>, id: u128) -> (r: bool)
    ensures
        r == ids@.contains(id),
{
    let mut i: usize = 0;
    while i < ids.len()
        invariant
            i <= ids.len(),
            forall|k: int| 0 <= k < i ==> ids@[k] != id,
        decreases ids.len() - i,
    {
        if ids[i] == id {
            assert(ids@[i as int] == id);
            return true;
        }
        i = i + 1;
    }
    false
}

impl PlayQueue {
    /// Whether the place of the entry that is playing is one of the queue.
    pub open spec fn is_valid(&self) -> bool {
        self.playing_item_index matches Some(i) ==> i < self.playlist.len()
    }

    /// The entry that is playing.
    pub open spec fn current(&self) -> Option<QueueItem> {
        match self.playing_item_index {
            Some(i) => if i < self.playlist.len() {
                Some(self.playlist[i as int])
            } else {
                None
            },
            None => None,
        }
    }

    /// The entries after new ones were put into the queue.
    pub open spec fn with_queued(&self, items: Seq<QueueItem>, mode: GroupQueueMode) -> Seq<
        QueueItem,
    > {
        match mode {
            GroupQueueMode::Queue => self.playlist@ + items,
            GroupQueueMode::QueueNext => if items.len() == 0 {
                self.playlist@
            } else {
                let at = match self.playing_item_index {
                    Some(i) => i + 1,
                    None => 0,
                };
                self.playlist@.take(at) + items + self.playlist@.skip(at)
            },
        }
    }

    /// The identifier of the entry that is playing.
    pub fn current_id(&self) -> (r: Option<u128>)
        ensures
            match self.current() {
                Some(item) => r == Some(item.playlist_item_id),
                None => r is None,
            },
    {
        match self.playing_item_index {
            Some(i) => if i < self.playlist.len() {
                Some(self.playlist[i].playlist_item_id)
            } else {
                None
            },
            None => None,
        }
    }

    /// Replaces the queue. The entry at `position`, or else the last one, is playing.
    pub fn replace(&mut self, items: Vec<QueueItem>, position: usize)
        ensures
            is_replaced(items@, position, *final(self)),
            final(self).is_valid(),
    {
        let playing: Option<usize> = if items.len() == 0 {
            None
        } else if position < items.len() {
            Some(position)
        } else {
            Some(items.len() - 1)
        };
        self.playlist = items;
        self.playing_item_index = playing;
    }

    /// Makes an entry the one that is playing. Says whether there is such an entry.
    pub fn select(&mut self, id: u128) -> (r: bool)
        ensures
            is_selected(*old(self), id, r, *final(self)),
            old(self).is_valid() ==> final(self).is_valid(),
    {
        match find_place(&self.playlist, id) {
            Some(i) => {
                self.playing_item_index = Some(i);
                true
            },
            None => false,
        }
    }

    /// Empties the queue.
    pub fn clear(&mut self)
        ensures
            final(self).playlist.len() == 0,
            final(self).playing_item_index is None,
            final(self).is_valid(),
    {
        self.playlist = Vec::new();
        self.playing_item_index = None;
    }

    /// Takes entries out. The entry that is playing stays the one that is playing, unless it is
    /// taken out or is to be no longer.
    pub fn remove(&mut self, ids: &Vec<u128>, clear_playing_item: bool)
        ensures
            is_removed(*old(self), ids@, clear_playing_item, *final(self)),
            old(self).is_valid() ==> final(self).is_valid(),
    {
        let ghost rule = |item: QueueItem| !ids@.contains(item.playlist_item_id);
        let current_id = self.current_id();
        let mut left: Vec<QueueItem> = Vec::new();
        let mut i: usize = 0;
        proof {
            reveal(Seq::filter);
            assert(self.playlist@.take(0) =~= Seq::empty());
        }
        while i < self.playlist.len()
            invariant
                i <= self.playlist.len(),
                self.playlist@ == old(self).playlist@,
                self.playing_item_index == old(self).playing_item_index,
                rule == (|item: QueueItem| !ids@.contains(item.playlist_item_id)),
                left@ == self.playlist@.take(i as int).filter(rule),
            decreases self.playlist.len() - i,
        {
            proof {
                reveal(Seq::filter);
                assert(self.playlist@.take(i + 1).drop_last() =~= self.playlist@.take(i as int));
            }
            if !is_among(ids, self.playlist[i].playlist_item_id) {
                left.push(self.playlist[i].clone());
            }
            i = i + 1;
        }
        assert(self.playlist@.take(i as int) =~= self.playlist@);
        self.playlist = left;
        if clear_playing_item {
            self.playing_item_index = None;
        } else if let Some(id) = current_id {
            self.playing_item_index = find_place(&self.playlist, id);
        }
    }

    /// Moves an entry to another place, or to the end. Says whether there is such an entry. The
    /// entry that is playing stays the one that is playing.
    pub fn move_item(&mut self, id: u128, new_index: usize) -> (r: bool)
        ensures
            is_moved(*old(self), id, new_index, r, *final(self)),
            old(self).is_valid() ==> final(self).is_valid(),
    {
        match find_place(&self.playlist, id) {
            Some(from) => {
                let current_id = self.current_id();
                let item = self.playlist.remove(from);
                let target: usize = if new_index <= self.playlist.len() {
                    new_index
                } else {
                    self.playlist.len()
                };
                self.playlist.insert(target, item);
                if let Some(id) = current_id {
                    self.playing_item_index = find_place(&self.playlist, id);
                }
                true
            },
            None => false,
        }
    }

    /// Puts new entries into the queue. If none is playing, the first one of the queue is.
    pub fn enqueue(&mut self, items: Vec<QueueItem>, mode: GroupQueueMode)
        requires
            mode == GroupQueueMode::QueueNext && items.len() > 0 ==> old(self).is_valid(),
        ensures
            is_enqueued(*old(self), items@, mode, *final(self)),
            old(self).is_valid() ==> final(self).is_valid(),
    {
        let ghost before = self.playlist@;
        let ghost added = items@;
        let is_empty = items.len() == 0;
        let mut items: Vec<QueueItem> = items;
        match mode {
            GroupQueueMode::Queue => {
                self.playlist.append(&mut items);
            },
            GroupQueueMode::QueueNext => {
                if !is_empty {
                    let at: usize = match self.playing_item_index {
                        Some(i) => i + 1,
                        None => 0,
                    };
                    let mut behind: Vec<QueueItem> = self.playlist.split_off(at);
                    self.playlist.append(&mut items);
                    self.playlist.append(&mut behind);
                    assert(self.playlist@ =~= before.take(at as int) + added + before.skip(
                        at as int,
                    ));
                }
            },
        }
        if self.playing_item_index.is_none() && self.playlist.len() > 0 {
            self.playing_item_index = Some(0);
        }
    }

    /// Goes to the next or the previous entry, around the ends. Says whether there is an entry.
    pub fn navigate(&mut self, id: Option<u128>, direction: Direction) -> (r: bool)
        ensures
            is_navigated(*old(self), id, direction, r, *final(self)),
            r ==> final(self).is_valid(),
    {
        let len: usize = self.playlist.len();
        if len == 0 {
            return false;
        }
        let given: Option<usize> = match id {
            Some(id) => find_place(&self.playlist, id),
            None => None,
        };
        let start: usize = match given {
            Some(i) => i,
            None => match self.playing_item_index {
                Some(i) => i,
                None => 0,
            },
        };
        let place: usize = start % len;
        let target: usize = match direction {
            Direction::Next => if place + 1 < len {
                place + 1
            } else {
                0
            },
            Direction::Previous => if place == 0 {
                len - 1
            } else {
                place - 1
            },
        };
        proof {
            lemma_step_around(start as int, len as int, direction.delta());
        }
        self.playing_item_index = Some(target);
        true
    }
}

proof fn lemma_step_around(start: int, len: int, delta: int)
    requires
        0 <= start,
        0 < len,
        delta == 1 || delta == -1,
    ensures
        (start + delta) % len == (if delta == 1 {
            if start % len + 1 < len {
                start % len + 1
            } else {
                0
            }
        } else {
            if start % len == 0 {
                len - 1
            } else {
                start % len - 1
            }
        }),
{
    vstd::arithmetic::div_mod::lemma_fundamental_div_mod(start, len);
    let q = start / len;
    let place = start % len;
    assert(len * q == q * len) by (nonlinear_arith);
    assert(start == q * len + place);
    if delta == 1 {
        if place + 1 < len {
            vstd::arithmetic::div_mod::lemma_fundamental_div_mod_converse(
                start + 1,
                len,
                q,
                place + 1,
            );
        } else {
            assert((q + 1) * len == q * len + len) by (nonlinear_arith);
            vstd::arithmetic::div_mod::lemma_fundamental_div_mod_converse(start + 1, len, q + 1, 0);
        }
    } else {
        if place == 0 {
            assert((q - 1) * len == q * len - len) by (nonlinear_arith);
            vstd::arithmetic::div_mod::lemma_fundamental_div_mod_converse(
                start - 1,
                len,
                q - 1,
                len - 1,
            );
        } else {
            vstd::arithmetic::div_mod::lemma_fundamental_div_mod_converse(
                start - 1,
                len,
                q,
                place - 1,
            );
        }
    }
}

/// In a queue of distinct entries the place of an entry is found by its identifier.
pub proof fn law_entries_are_found(items: Seq<QueueItem>, i: int)
    requires
        distinct_items(items),
        0 <= i < items.len() <= usize::MAX,
    ensures
        place_of(items, items[i].playlist_item_id) == Some(i as usize),
{
    lemma_place_of(items, items[i].playlist_item_id, i);
}

proof fn lemma_moved(items: Seq<QueueItem>, from: int, to: int)
    requires
        0 <= from < items.len(),
        0 <= to,
    ensures
        moved(items, from, to).len() == items.len(),
        moved(items, from, to).to_multiset() == items.to_multiset(),
        distinct_items(items) ==> distinct_items(moved(items, from, to)),
        forall|i: int| 0 <= i < items.len() ==> moved(items, from, to).contains(#[trigger] items[i]),
{
    broadcast use vstd::seq_lib::group_to_multiset_ensures;

    let rest = items.remove(from);
    let at = if to <= rest.len() {
        to
    } else {
        rest.len() as int
    };
    let all = moved(items, from, to);
    assert(rest.insert(at, items[from]) == all);
    assert(items =~= rest.insert(from, items[from]));
    assert(all.to_multiset() =~= items.to_multiset());
    assert forall|i: int| 0 <= i < items.len() implies all.contains(#[trigger] items[i]) by {
        if i == from {
            assert(all[at] == items[i]);
        } else {
            let k = if i < from {
                i
            } else {
                i - 1
            };
            assert(rest[k] == items[i]);
            if k < at {
                assert(all[k] == items[i]);
            } else {
                assert(all[k + 1] == items[i]);
            }
        }
    }
    if distinct_items(items) {
        assert forall|a: int, b: int| 0 <= a < b < all.len() implies (
        #[trigger] all[a]).playlist_item_id != (#[trigger] all[b]).playlist_item_id by {
            let i = source_of(from, at, a);
            let j = source_of(from, at, b);
            assert(all[a] == items[i]);
            assert(all[b] == items[j]);
            if i < j {
                assert(items[i].playlist_item_id != items[j].playlist_item_id);
            } else {
                assert(items[j].playlist_item_id != items[i].playlist_item_id);
            }
        }
    }
}

/// Where the entry that a move leaves at `i` came from.
spec fn source_of(from: int, at: int, i: int) -> int {
    if i == at {
        from
    } else {
        let k = if i < at {
            i
        } else {
            i - 1
        };
        if k < from {
            k
        } else {
            k + 1
        }
    }
}

/// Moving an entry loses none, adds none, and leaves the entry that is playing the one that is
/// playing.
pub proof fn law_move_keeps_the_current_item(
    items: Seq<QueueItem>,
    from: int,
    to: int,
    playing: int,
)
    requires
        distinct_items(items),
        items.len() <= usize::MAX,
        0 <= from < items.len(),
        0 <= to,
        0 <= playing < items.len(),
    ensures
        moved(items, from, to).to_multiset() == items.to_multiset(),
        distinct_items(moved(items, from, to)),
        place_of(moved(items, from, to), items[playing].playlist_item_id) matches Some(i) && i
            < items.len() && moved(items, from, to)[i as int] == items[playing],
{
    lemma_moved(items, from, to);
    let all = moved(items, from, to);
    assert(all.contains(items[playing]));
    let k = choose|k: int| 0 <= k < all.len() && all[k] == items[playing];
    law_entries_are_found(all, k);
}

/// Moving an entry away and back restores the queue.
pub proof fn law_move_back_restores(items: Seq<QueueItem>, from: int, to: int)
    requires
        0 <= from < items.len(),
        0 <= to < items.len(),
    ensures
        moved(moved(items, from, to), to, from) == items,
{
    let there = moved(items, from, to);
    assert(there.remove(to) =~= items.remove(from));
    assert(moved(there, to, from) =~= items);
}

proof fn lemma_without_ids(items: Seq<QueueItem>, ids: Seq<u128>)
    ensures
        distinct_items(items) ==> distinct_items(without_ids(items, ids)),
        without_ids(items, ids).len() <= items.len(),
    decreases items.len(),
{
    reveal(Seq::filter);
    let rule = |item: QueueItem| !ids.contains(item.playlist_item_id);
    if items.len() > 0 {
        let rest = items.drop_last();
        lemma_without_ids(rest, ids);
        let left = without_ids(rest, ids);
        let all = without_ids(items, ids);
        if distinct_items(items) {
            assert(distinct_items(rest));
            assert forall|i: int, j: int| 0 <= i < j < all.len() implies (
            #[trigger] all[i]).playlist_item_id != (#[trigger] all[j]).playlist_item_id by {
                assert(all[i] == left[i]);
                if j < left.len() {
                    assert(all[j] == left[j]);
                } else {
                    rest.lemma_filter_contains_rev(rule, left[i]);
                    let k = choose|k: int| 0 <= k < rest.len() && rest[k] == left[i];
                    assert(items[k].playlist_item_id != items[items.len() - 1].playlist_item_id);
                }
            }
        }
    }
}

/// Taking entries out leaves exactly the others. The entry that was playing is found among them
/// unless it was taken out.
pub proof fn law_remove_keeps_the_current_item(
    items: Seq<QueueItem>,
    ids: Seq<u128>,
    playing: int,
)
    requires
        distinct_items(items),
        items.len() <= usize::MAX,
        0 <= playing < items.len(),
    ensures
        distinct_items(without_ids(items, ids)),
        forall|i: int|
            0 <= i < items.len() ==> without_ids(items, ids).contains(#[trigger] items[i])
                == !ids.contains(items[i].playlist_item_id),
        ids.contains(items[playing].playlist_item_id) ==> place_of(
            without_ids(items, ids),
            items[playing].playlist_item_id,
        ) is None,
        !ids.contains(items[playing].playlist_item_id) ==> (place_of(
            without_ids(items, ids),
            items[playing].playlist_item_id,
        ) matches Some(i) && i < without_ids(items, ids).len() && without_ids(items, ids)[i as int]
            == items[playing]),
{
    let rule = |item: QueueItem| !ids.contains(item.playlist_item_id);
    let left = without_ids(items, ids);
    let id = items[playing].playlist_item_id;
    lemma_without_ids(items, ids);
    assert forall|i: int| 0 <= i < items.len() implies left.contains(#[trigger] items[i])
        == !ids.contains(items[i].playlist_item_id) by {
        if left.contains(items[i]) {
            let k = choose|k: int| 0 <= k < left.len() && left[k] == items[i];
            items.lemma_filter_pred(rule, k);
        }
        if !ids.contains(items[i].playlist_item_id) {
            items.lemma_filter_contains(rule, i);
        }
    }
    if ids.contains(id) {
        lemma_found_place(left, id);
        if let Some(k) = place_of(left, id) {
            items.lemma_filter_pred(rule, k as int);
        }
    } else {
        assert(left.contains(items[playing]));
        let k = choose|k: int| 0 <= k < left.len() && left[k] == items[playing];
        law_entries_are_found(left, k);
    }
}

/// New entries leave the entry that was playing the one that is playing, and all entries in their
/// order. They stand directly behind it where they are to come next, and behind all others
/// otherwise. In a queue in which nothing was playing, those to come next stand in front of all
/// others, and the first entry is playing then.
pub proof fn law_enqueue_keeps_the_current_item(
    before: PlayQueue,
    items: Seq<QueueItem>,
    mode: GroupQueueMode,
    after: PlayQueue,
)
    requires
        before.playing_item_index matches Some(i) ==> i < before.playlist.len(),
        is_enqueued(before, items, mode, after),
    ensures
        after.playlist.len() == before.playlist.len() + items.len(),
        before.playing_item_index matches Some(i) ==> {
            &&& after.playing_item_index == Some(i)
            &&& after.playlist[i as int] == before.playlist[i as int]
        },
        before.playing_item_index is None ==> after.playing_item_index == if after.playlist.len()
            == 0 {
            None
        } else {
            Some(0usize)
        },
        mode == GroupQueueMode::Queue ==> {
            &&& forall|j: int|
                0 <= j < before.playlist.len() ==> after.playlist[j] == #[trigger] before.playlist[j]
            &&& forall|k: int|
                0 <= k < items.len() ==> after.playlist[before.playlist.len() + k]
                    == #[trigger] items[k]
        },
        mode == GroupQueueMode::QueueNext ==> (before.playing_item_index matches Some(i) ==> {
            &&& forall|j: int|
                0 <= j <= i ==> after.playlist[j] == #[trigger] before.playlist[j]
            &&& forall|k: int|
                0 <= k < items.len() ==> after.playlist[i + 1 + k] == #[trigger] items[k]
            &&& forall|j: int|
                i < j < before.playlist.len() ==> after.playlist[j + items.len()]
                    == #[trigger] before.playlist[j]
        }),
        mode == GroupQueueMode::QueueNext && before.playing_item_index is None ==> {
            &&& forall|k: int| 0 <= k < items.len() ==> after.playlist[k] == #[trigger] items[k]
            &&& forall|j: int|
                0 <= j < before.playlist.len() ==> after.playlist[j + items.len()]
                    == #[trigger] before.playlist[j]
        },
{
    let old_list = before.playlist@;
    let at = if before.playing_item_index is Some {
        before.playing_item_index->0 + 1
    } else {
        0
    };
    if mode == GroupQueueMode::QueueNext {
        let next = old_list.take(at) + items + old_list.skip(at);
        assert(after.playlist@ =~= next);
        assert forall|k: int| 0 <= k < items.len() implies next[at + k] == #[trigger] items[k] by {
            assert((old_list.take(at) + items)[at + k] == items[k]);
        }
        assert forall|j: int| at <= j < old_list.len() implies next[j + items.len()]
            == #[trigger] old_list[j] by {
            assert(old_list.skip(at)[j - at] == old_list[j]);
        }
        assert forall|j: int| 0 <= j < at implies next[j] == #[trigger] old_list[j] by {
            assert((old_list.take(at) + items)[j] == old_list[j]);
        }
    } else {
        assert forall|k: int| 0 <= k < items.len() implies after.playlist[old_list.len() + k]
            == #[trigger] items[k] by {
            assert((old_list + items)[old_list.len() + k] == items[k]);
        }
    }
}

/// A new queue holds exactly the given entries, and the entry at the wanted place is playing; the
/// last one is where the place lies behind the end, and none is in an empty queue.
pub proof fn law_new_queue_plays_the_wanted_entry(
    items: Seq<QueueItem>,
    position: usize,
    after: PlayQueue,
)
    requires
        is_replaced(items, position, after),
    ensures
        after.playlist@ == items,
        items.len() == 0 ==> after.playing_item_index is None,
        items.len() > 0 ==> (after.playing_item_index matches Some(i) && i < items.len() && (i
            == position || (i < position && i + 1 == items.len()))),
{
}

/// The entry that is chosen is playing afterwards: the first one with the identifier. Where there
/// is none, nothing changes.
pub proof fn law_chosen_entry_plays(before: PlayQueue, id: u128, found: bool, after: PlayQueue)
    requires
        is_selected(before, id, found, after),
    ensures
        after.playlist@ == before.playlist@,
        found <==> exists|i: int|
            0 <= i < before.playlist.len() && (#[trigger] before.playlist[i]).playlist_item_id
                == id,
        found ==> (after.playing_item_index matches Some(k) && k < before.playlist.len()
            && before.playlist[k as int].playlist_item_id == id && forall|j: int|
            0 <= j < k ==> (#[trigger] before.playlist[j]).playlist_item_id != id),
        !found ==> after.playing_item_index == before.playing_item_index,
{
    assert(before.playlist.len() == before.playlist@.len());
    lemma_found_place(before.playlist@, id);
    if let Some(k) = place_of(before.playlist@, id) {
        assert(before.playlist[k as int].playlist_item_id == id);
    }
}

/// Of a queue exactly the entries with the given identifiers leave, and the others keep their
/// order. The entry that was playing still is, unless it has left or is to be no longer: then none
/// is.
pub proof fn law_removed_entries_leave(
    before: PlayQueue,
    ids: Seq<u128>,
    clear_playing_item: bool,
    after: PlayQueue,
)
    requires
        is_removed(before, ids, clear_playing_item, after),
        before.playing_item_index matches Some(i) ==> i < before.playlist.len(),
        forall|i: int, j: int|
            0 <= i < j < before.playlist.len() ==> (#[trigger] before.playlist[i]).playlist_item_id
                != (#[trigger] before.playlist[j]).playlist_item_id,
    ensures
        picking::are_picked(
            before.playlist@,
            after.playlist@,
            |item: QueueItem| !ids.contains(item.playlist_item_id),
        ),
        clear_playing_item || before.playing_item_index is None ==> after.playing_item_index
            is None,
        !clear_playing_item ==> (before.playing_item_index matches Some(i) ==> if ids.contains(
            before.playlist[i as int].playlist_item_id,
        ) {
            after.playing_item_index is None
        } else {
            after.playing_item_index matches Some(k) && k < after.playlist.len()
                && after.playlist[k as int] == before.playlist[i as int]
        }),
{
    let places = picking::lemma_filter_picks(
        before.playlist@,
        |item: QueueItem| !ids.contains(item.playlist_item_id),
    );
    if let Some(i) = before.playing_item_index {
        law_remove_keeps_the_current_item(before.playlist@, ids, i as int);
    }
}

/// An entry that is moved stands at the wanted place afterwards, or at the end where that lies
/// behind it, and all others keep their order. The entry that was playing still is. Where there is
/// no such entry, nothing changes.
pub proof fn law_moved_entry_stands_where_it_should(
    before: PlayQueue,
    id: u128,
    new_index: usize,
    found: bool,
    after: PlayQueue,
    from: int,
)
    requires
        is_moved(before, id, new_index, found, after),
        before.playing_item_index matches Some(i) ==> i < before.playlist.len(),
        forall|i: int, j: int|
            0 <= i < j < before.playlist.len() ==> (#[trigger] before.playlist[i]).playlist_item_id
                != (#[trigger] before.playlist[j]).playlist_item_id,
        0 <= from < before.playlist.len(),
    ensures
        before.playlist[from].playlist_item_id == id ==> {
            let last = before.playlist.len() - 1;
            let to = if new_index < last {
                new_index as int
            } else {
                last
            };
            &&& found
            &&& after.playlist.len() == before.playlist.len()
            &&& after.playlist[to] == before.playlist[from]
            &&& after.playlist@.remove(to) == before.playlist@.remove(from)
        },
        found ==> exists|i: int|
            0 <= i < before.playlist.len() && (#[trigger] before.playlist[i]).playlist_item_id
                == id,
        !found ==> after.playlist@ == before.playlist@,
        before.playing_item_index is None ==> after.playing_item_index is None,
        before.playing_item_index matches Some(i) ==> (after.playing_item_index matches Some(k) && k
            < after.playlist.len() && after.playlist[k as int] == before.playlist[i as int]),
{
    let items = before.playlist@;
    lemma_found_place(items, id);
    if items[from].playlist_item_id == id {
        law_entries_are_found(items, from);
    }
    if let Some(place) = place_of(items, id) {
        let place = place as int;
        assert(items[place].playlist_item_id == id);
        let rest = items.remove(place);
        let to = if new_index <= rest.len() {
            new_index as int
        } else {
            rest.len() as int
        };
        assert(rest.insert(to, items[place]).remove(to) =~= rest);
        lemma_moved(items, place, new_index as int);
        if let Some(i) = before.playing_item_index {
            law_move_keeps_the_current_item(items, place, new_index as int, i as int);
        }
    }
}

/// Going on leads from an entry to the one behind it, and from the last one to the first; going
/// back is the reverse. It starts at the given entry, else at the one that is playing, else at the
/// first.
pub proof fn law_navigation_goes_to_the_neighbour(
    before: PlayQueue,
    id: Option<u128>,
    direction: Direction,
    found: bool,
    after: PlayQueue,
    start: int,
)
    requires
        is_navigated(before, id, direction, found, after),
        0 <= start < before.playlist.len(),
        match id {
            Some(id) if (exists|i: int|
                0 <= i < before.playlist.len() && (#[trigger] before.playlist[i]).playlist_item_id
                    == id) => before.playlist[start].playlist_item_id == id && forall|j: int|
                0 <= j < start ==> (#[trigger] before.playlist[j]).playlist_item_id != id,
            _ => match before.playing_item_index {
                Some(i) => start == i,
                None => start == 0,
            },
        },
    ensures
        found,
        after.playlist@ == before.playlist@,
        direction == Direction::Next ==> (after.playing_item_index matches Some(i) && (i == start
            + 1 || (start + 1 == before.playlist.len() && i == 0)) && i < before.playlist.len()),
        direction == Direction::Previous ==> (after.playing_item_index matches Some(i) && (i + 1
            == start || (start == 0 && i + 1 == before.playlist.len())) && i
            < before.playlist.len()),
{
    let len = before.playlist.len() as int;
    if let Some(id) = id {
        lemma_found_place(before.playlist@, id);
        if let Some(k) = place_of(before.playlist@, id) {
            assert(before.playlist[k as int].playlist_item_id == id);
            lemma_place_of(before.playlist@, id, start);
        }
    }
    assert(starting_place(before.playlist@, before.playing_item_index, id) == start);
    assert(start % len == start) by (nonlinear_arith)
        requires
            0 <= start < len,
    ;
    lemma_step_around(start, len, 1);
    lemma_step_around(start, len, -1);
}

/// An empty queue stays as it is when it is gone through.
pub proof fn law_empty_queue_is_not_gone_through(
    before: PlayQueue,
    id: Option<u128>,
    direction: Direction,
    found: bool,
    after: PlayQueue,
)
    requires
        is_navigated(before, id, direction, found, after),
        before.playlist.len() == 0,
    ensures
        !found,
        after.playlist.len() == 0,
        after.playing_item_index == before.playing_item_index,
{
}

/// There is one entry for each item, in their order, with the identifier at its place.
pub proof fn law_each_item_gets_its_identifier(item_ids: Seq<String>, ids: Seq<u128>, i: int)
    requires
        0 <= i < item_ids.len(),
        ids.len() == item_ids.len(),
    ensures
        entries_of(item_ids, ids).len() == item_ids.len(),
        entries_of(item_ids, ids)[i].item_id == item_ids[i],
        entries_of(item_ids, ids)[i].playlist_item_id == ids[i],
{
}

/// Going forth and back, or back and forth, leads to where it began.
pub proof fn law_navigation_is_undone(len: int, place: int)
    requires
        0 <= place < len,
    ensures
        ((place + Direction::Next.delta()) % len + Direction::Previous.delta()) % len == place,
        ((place + Direction::Previous.delta()) % len + Direction::Next.delta()) % len == place,
{
    assert(place % len == place) by (nonlinear_arith)
        requires
            0 <= place < len,
    ;
    lemma_step_around(place, len, 1);
    lemma_step_around(place, len, -1);
    let next = (place + 1) % len;
    let previous = (place - 1) % len;
    assert(next % len == next) by (nonlinear_arith)
        requires
            0 <= next < len,
    ;
    assert(previous % len == previous) by (nonlinear_arith)
        requires
            0 <= previous < len,
    ;
    lemma_step_around(next, len, -1);
    lemma_step_around(previous, len, 1);
}

/// The place after `steps` steps to the next entry.
pub open spec fn after_steps(len: int, place: int, steps: nat) -> int
    decreases steps,
{
    if steps == 0 {
        place
    } else {
        (after_steps(len, place, (steps - 1) as nat) + Direction::Next.delta()) % len
    }
}

/// Going on to the next entry goes through the whole queue and comes back to where it began.
pub proof fn law_navigation_goes_around(len: int, place: int, steps: nat)
    requires
        0 <= place < len,
        steps <= len,
    ensures
        after_steps(len, place, steps) == if place + steps < len {
            place + steps
        } else {
            place + steps - len
        },
        after_steps(len, place, len as nat) == place,
{
    lemma_after_steps(len, place, steps);
    lemma_after_steps(len, place, len as nat);
}

proof fn lemma_after_steps(len: int, place: int, steps: nat)
    requires
        0 <= place < len,
        steps <= len,
    ensures
        after_steps(len, place, steps) == if place + steps < len {
            place + steps
        } else {
            place + steps - len
        },
    decreases steps,
{
    if steps > 0 {
        lemma_after_steps(len, place, (steps - 1) as nat);
        let before = after_steps(len, place, (steps - 1) as nat);
        assert(before % len == before) by (nonlinear_arith)
            requires
                0 <= before < len,
        ;
        lemma_step_around(before, len, 1);
    }
}

/// There is one entry for each item, in their order, and it is for that item.
pub proof fn law_each_item_gets_an_entry(items: Seq<QueueItem>, item_ids: Seq<String>, i: int)
    requires
        are_for(items, item_ids),
        0 <= i < item_ids.len(),
    ensures
        items.len() == item_ids.len(),
        items[i].item_id@ == item_ids[i]@,
{
}

} // verus!
