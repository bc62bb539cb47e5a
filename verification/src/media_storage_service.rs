//! Virtual media identifiers and the items of upstream servers that they stand for.

use crate::decimal;
use crate::server_id::ServerId;
use crate::server_storage::{self, Server};
use crate::server_url;
use crate::time::Timestamp;
use vstd::prelude::*;
use vstd::string::*;

verus! {

/// The value that `uuid::Uuid::parse_str` reads from a text; `None` where it gives an error.
pub uninterp spec fn parsed_uuid(text: Seq<char>) -> Option<u128>;

/// A digit of hexadecimal notation, in lower case.
pub open spec fn hex_digit(d: int) -> char {
    if d < 10 {
        (0x30 + d) as char
    } else {
        (0x61 + d - 10) as char
    }
}

/// The last `digits` hexadecimal digits of a number.
pub open spec fn hex_text(value: nat, digits: nat) -> Seq<char>
    decreases digits,
{
    if digits == 0 {
        Seq::empty()
    } else {
        hex_text(value / 16, (digits - 1) as nat).push(hex_digit((value % 16) as int))
    }
}

/// The simple form of a UUID: its thirty-two hexadecimal digits.
pub open spec fn simple_form(value: u128) -> Seq<char> {
    hex_text(value as nat, 32)
}

/// `uuid::Uuid::parse_str`: the result depends on the text alone.
#[verifier::external_body]
pub(crate) fn parse_uuid(text: &str) -> (r: Option<u128>)
    ensures
        r == parsed_uuid(text@),
{
    match uuid::Uuid::parse_str(text) {
        Ok(uuid) => Some(uuid.as_u128()),
        Err(_) => None,
    }
}

/// `simple` of `uuid::Uuid`, as text: the digits in lower case, without hyphens. Reading the
/// text gives back the value.
#[verifier::external_body]
fn simple_text(value: u128) -> (r: String)
    ensures
        r@ == simple_form(value),
        parsed_uuid(r@) == Some(value),
{
    uuid::Uuid::from_u128(value).simple().to_string()
}

/// A text with a UUID brought into its simple form; any other text is left as it is.
pub open spec fn normalized(text: Seq<char>) -> Seq<char> {
    match parsed_uuid(text) {
        Some(value) => simple_form(value),
        None => text,
    }
}

/// An item of an upstream server and the virtual identifier that stands for it.
#[derive(Debug)]
pub struct MediaMapping {
    pub id: i64,
    pub virtual_media_id: String,
    pub original_media_id: String,
    pub server_id: ServerId,
    pub server_url: String,
    pub created_at: Timestamp,
}

impl Clone for MediaMapping {
    fn clone(&self) -> (r: Self)
        ensures
            r == *self,
    {
        MediaMapping {
            id: self.id,
            virtual_media_id: self.virtual_media_id.clone(),
            original_media_id: self.original_media_id.clone(),
            server_id: self.server_id,
            server_url: self.server_url.clone(),
            created_at: self.created_at,
        }
    }
}

/// The key under which the mapping of an item of a server is cached.
pub open spec fn cache_key(original_media_id: Seq<char>, server_id: ServerId) -> Seq<char> {
    original_media_id + seq!['|'] + decimal::decimal(server_id.0 as int)
}

/// An item of a server for which a mapping is wanted.
#[derive(Debug)]
pub struct MappedItem {
    /// The identifier that the server gives the item, a UUID in its simple form.
    pub original_media_id: String,
    pub server_id: ServerId,
    /// The address of the server, in canonical form.
    pub server_url: String,
}

/// Whether a key and an item are those of an item of a server.
pub open spec fn is_search_for(
    key: String,
    item: MappedItem,
    original_media_id: Seq<char>,
    server_id: ServerId,
) -> bool {
    &&& key@ == cache_key(original_media_id, server_id)
    &&& item.original_media_id@ == original_media_id
    &&& item.server_id == server_id
}

/// What has to be done to find the mapping of an item or to create it.
pub enum MappingStep<E> {
    /// Read the cache.
    ReadCache { key: String, item: MappedItem },
    /// Look for a stored mapping of the item.
    FindExisting { key: String, item: MappedItem },
    /// Store a mapping of the item with a fresh virtual identifier, unless one is stored by then.
    Insert { key: String, item: MappedItem },
    /// Look again for the mapping that was stored in the meantime.
    FindAgain { key: String, item: MappedItem },
    /// Put the mapping into the cache, then hand it out.
    Store { key: String, mapping: MediaMapping },
    /// Hand the mapping out.
    Return(MediaMapping),
    /// Give up.
    Fail(MappingFailure<E>),
}

/// Why no mapping can be handed out.
pub enum MappingFailure<E> {
    /// The store failed.
    Database(E),
    /// A mapping stood in the way of a new one and yet could not be found.
    RowNotFound,
}

/// What came of a step.
pub enum MappingEvent<E> {
    Cached(Option<MediaMapping>),
    Found(Result<Option<MediaMapping>, E>),
    Inserted(Result<Option<MediaMapping>, E>),
    Stored,
}

/// The step that follows; an event that does not belong to the step changes nothing.
pub open spec fn next_mapping_step<E>(step: MappingStep<E>, event: MappingEvent<E>) -> MappingStep<E> {
    match (step, event) {
        (
            MappingStep::ReadCache { .. },
            MappingEvent::Cached(Some(mapping)),
        ) => MappingStep::Return(mapping),
        (
            MappingStep::ReadCache { key, item },
            MappingEvent::Cached(None),
        ) => MappingStep::FindExisting { key, item },
        (
            MappingStep::FindExisting { key, .. },
            MappingEvent::Found(Ok(Some(mapping))),
        ) => MappingStep::Store { key, mapping },
        (
            MappingStep::FindExisting { key, item },
            MappingEvent::Found(Ok(None)),
        ) => MappingStep::Insert { key, item },
        (
            MappingStep::FindExisting { .. },
            MappingEvent::Found(Err(error)),
        ) => MappingStep::Fail(MappingFailure::Database(error)),
        (
            MappingStep::Insert { key, .. },
            MappingEvent::Inserted(Ok(Some(mapping))),
        ) => MappingStep::Store { key, mapping },
        (
            MappingStep::Insert { key, item },
            MappingEvent::Inserted(Ok(None)),
        ) => MappingStep::FindAgain { key, item },
        (
            MappingStep::Insert { .. },
            MappingEvent::Inserted(Err(error)),
        ) => MappingStep::Fail(MappingFailure::Database(error)),
        (
            MappingStep::FindAgain { key, .. },
            MappingEvent::Found(Ok(Some(mapping))),
        ) => MappingStep::Store { key, mapping },
        (
            MappingStep::FindAgain { .. },
            MappingEvent::Found(Ok(None)),
        ) => MappingStep::Fail(MappingFailure::RowNotFound),
        (
            MappingStep::FindAgain { .. },
            MappingEvent::Found(Err(error)),
        ) => MappingStep::Fail(MappingFailure::Database(error)),
        (
            MappingStep::Store { mapping, .. },
            MappingEvent::Stored,
        ) => MappingStep::Return(mapping),
        (step, _) => step,
    }
}

/// A row that joins a mapping with its server.
pub struct MappingWithServerRow {
    pub mapping: MediaMapping,
    pub server: server_storage::ServerRow,
}

/// What has to be done to find the mapping of a virtual identifier together with its server.
pub enum MappingWithServerStep<E> {
    /// Read the cache.
    ReadCache { virtual_media_id: String },
    /// Read the store.
    Query { virtual_media_id: String },
    /// Put the pair into the cache, then hand it out.
    Store { virtual_media_id: String, mapping: MediaMapping, server: Server },
    /// Hand out what was found.
    Return(Option<(MediaMapping, Server)>),
    /// Give up, as the store failed.
    FailDatabase(E),
    /// Give up, as the address of the server cannot be read.
    FailColumn(server_storage::ColumnDecodeError),
}

/// What came of a step.
pub enum MappingWithServerEvent<E> {
    Cached(Option<(MediaMapping, Server)>),
    Row(Result<Option<MappingWithServerRow>, E>),
    Stored,
}

/// Whether a step follows from the outcome of another.
pub open spec fn mapping_with_server_follows<E>(
    step: MappingWithServerStep<E>,
    event: MappingWithServerEvent<E>,
    next: MappingWithServerStep<E>,
) -> bool {
    match (step, event) {
        (
            MappingWithServerStep::ReadCache { .. },
            MappingWithServerEvent::Cached(Some(pair)),
        ) => next == MappingWithServerStep::<E>::Return(Some(pair)),
        (
            MappingWithServerStep::ReadCache { virtual_media_id },
            MappingWithServerEvent::Cached(None),
        ) => next == (MappingWithServerStep::<E>::Query { virtual_media_id }),
        (
            MappingWithServerStep::Query { virtual_media_id },
            MappingWithServerEvent::Row(Ok(Some(row))),
        ) => match server_storage::accepted_url(row.server.url@) {
            Ok(text) => {
                &&& next matches MappingWithServerStep::Store {
                    virtual_media_id: id,
                    mapping,
                    server,
                }
                &&& id == virtual_media_id
                &&& mapping == row.mapping
                &&& server@ == server_storage::server_of_row(row.server, text)
            },
            Err(error) => next matches MappingWithServerStep::FailColumn(e) && e.column@
                == "server_url_full"@ && e.source.0 == error,
        },
        (
            MappingWithServerStep::Query { .. },
            MappingWithServerEvent::Row(Ok(None)),
        ) => next == MappingWithServerStep::<E>::Return(None),
        (
            MappingWithServerStep::Query { .. },
            MappingWithServerEvent::Row(Err(error)),
        ) => next == MappingWithServerStep::<E>::FailDatabase(error),
        (
            MappingWithServerStep::Store { mapping, server, .. },
            MappingWithServerEvent::Stored,
        ) => next == MappingWithServerStep::<E>::Return(Some((mapping, server))),
        (step, _) => next == step,
    }
}

/// What a deletion of a mapping leaves to do.
pub struct MappingDeletion {
    /// Whether there was a mapping to delete.
    pub deleted: bool,
    /// The virtual identifier whose entries leave the caches, if any do.
    pub invalidate: Option<String>,
}

/// Whether a deletion is that of the mappings with a virtual identifier.
pub open spec fn is_deletion_of(
    virtual_media_id: Seq<char>,
    rows_affected: u64,
    deletion: MappingDeletion,
) -> bool {
    &&& deletion.deleted == (rows_affected > 0)
    &&& deletion.invalidate is Some == (rows_affected > 0)
    &&& deletion.invalidate matches Some(id) ==> id@ == virtual_media_id
}

/// Whether a step begins the search for the mapping of an item of a server.
pub open spec fn begins_search<E>(
    original_media_id: Seq<char>,
    server: Server,
    step: MappingStep<E>,
) -> bool {
    step matches MappingStep::ReadCache { key, item } && {
        &&& is_search_for(key, item, normalized(original_media_id), server.id)
        &&& item.server_url@ == server.url@
    }
}

/// The rules by which media mappings are found, created and dropped.
pub struct MediaStorageService {}

impl MediaStorageService {
    /// Brings a UUID into its simple form; any other text is left as it is. Doing it twice
    /// changes nothing more.
    pub fn normalize_uuid(s: &str) -> (r: String)
        ensures
            r@ == normalized(s@),
            normalized(r@) == r@,
    {
        MediaStorageService::normalized_from(s, parse_uuid(s))
    }

    /// The text to use for `s`, of which `parsed` is the UUID that it spells, if it spells one.
    pub fn normalized_from(s: &str, parsed: Option<u128>) -> (r: String)
        ensures
            match parsed {
                Some(value) => r@ == simple_form(value) && parsed_uuid(r@) == Some(value),
                None => r@ == s@,
            },
    {
        match parsed {
            Some(value) => simple_text(value),
            None => s.to_owned(),
        }
    }

    /// The key under which the mapping of an item of a server is cached.
    pub fn mapping_cache_key(original_media_id: &str, server_id: ServerId) -> (r: String)
        ensures
            r@ == cache_key(original_media_id@, server_id),
    {
        proof {
            reveal_strlit("|");
        }
        let key = original_media_id.to_owned().concat("|").concat(server_id.text().as_str());
        assert("|"@ =~= seq!['|']);
        key
    }

    /// Begins the search for the mapping of an item of a server.
    pub fn find_mapping<E>(original_media_id: &str, server: &Server) -> (r: MappingStep<E>)
        ensures
            begins_search(original_media_id@, *server, r),
    {
        let original_media_id = MediaStorageService::normalize_uuid(original_media_id);
        let key = MediaStorageService::mapping_cache_key(original_media_id.as_str(), server.id);
        let item = MappedItem {
            original_media_id,
            server_id: server.id,
            server_url: server.url.as_str().to_owned(),
        };
        MappingStep::ReadCache { key, item }
    }

    /// Goes on with the search for a mapping.
    pub fn get_or_create_media_mapping<E>(step: MappingStep<E>, event: MappingEvent<E>) -> (r:
        MappingStep<E>)
        ensures
            r == next_mapping_step(step, event),
    {
        match (step, event) {
            (
                MappingStep::ReadCache { .. },
                MappingEvent::Cached(Some(mapping)),
            ) => MappingStep::Return(mapping),
            (
                MappingStep::ReadCache { key, item },
                MappingEvent::Cached(None),
            ) => MappingStep::FindExisting { key, item },
            (
                MappingStep::FindExisting { key, .. },
                MappingEvent::Found(Ok(Some(mapping))),
            ) => MappingStep::Store { key, mapping },
            (
                MappingStep::FindExisting { key, item },
                MappingEvent::Found(Ok(None)),
            ) => MappingStep::Insert { key, item },
            (
                MappingStep::FindExisting { .. },
                MappingEvent::Found(Err(error)),
            ) => MappingStep::Fail(MappingFailure::Database(error)),
            (
                MappingStep::Insert { key, .. },
                MappingEvent::Inserted(Ok(Some(mapping))),
            ) => MappingStep::Store { key, mapping },
            (
                MappingStep::Insert { key, item },
                MappingEvent::Inserted(Ok(None)),
            ) => MappingStep::FindAgain { key, item },
            (
                MappingStep::Insert { .. },
                MappingEvent::Inserted(Err(error)),
            ) => MappingStep::Fail(MappingFailure::Database(error)),
            (
                MappingStep::FindAgain { key, .. },
                MappingEvent::Found(Ok(Some(mapping))),
            ) => MappingStep::Store { key, mapping },
            (
                MappingStep::FindAgain { .. },
                MappingEvent::Found(Ok(None)),
            ) => MappingStep::Fail(MappingFailure::RowNotFound),
            (
                MappingStep::FindAgain { .. },
                MappingEvent::Found(Err(error)),
            ) => MappingStep::Fail(MappingFailure::Database(error)),
            (
                MappingStep::Store { mapping, .. },
                MappingEvent::Stored,
            ) => MappingStep::Return(mapping),
            (step, _) => step,
        }
    }

    /// Reads a mapping and its server out of a joined row.
    pub fn read_mapping_with_server(row: MappingWithServerRow) -> (r: Result<
        (MediaMapping, Server),
        server_storage::ColumnDecodeError,
    >)
        ensures
            match server_storage::accepted_url(row.server.url@) {
                Ok(text) => r matches Ok(pair) && pair.0 == row.mapping && pair.1@
                    == server_storage::server_of_row(row.server, text),
                Err(error) => r matches Err(e) && e.column@ == "server_url_full"@ && e.source.0
                    == error,
            },
    {
        match Server::from_row(row.server, "server_url_full") {
            Ok(server) => Ok((row.mapping, server)),
            Err(error) => Err(error),
        }
    }

    /// Begins the search for the mapping of a virtual identifier and its server.
    pub fn find_mapping_with_server<E>(virtual_media_id: &str) -> (r: MappingWithServerStep<E>)
        ensures
            r matches MappingWithServerStep::ReadCache { virtual_media_id: id } && id@
                == normalized(virtual_media_id@),
    {
        MappingWithServerStep::ReadCache {
            virtual_media_id: MediaStorageService::normalize_uuid(virtual_media_id),
        }
    }

    /// Goes on with the search for a mapping and its server.
    pub fn get_media_mapping_with_server<E>(
        step: MappingWithServerStep<E>,
        event: MappingWithServerEvent<E>,
    ) -> (r: MappingWithServerStep<E>)
        ensures
            mapping_with_server_follows(step, event, r),
    {
        match (step, event) {
            (
                MappingWithServerStep::ReadCache { .. },
                MappingWithServerEvent::Cached(Some(pair)),
            ) => MappingWithServerStep::Return(Some(pair)),
            (
                MappingWithServerStep::ReadCache { virtual_media_id },
                MappingWithServerEvent::Cached(None),
            ) => MappingWithServerStep::Query { virtual_media_id },
            (
                MappingWithServerStep::Query { virtual_media_id },
                MappingWithServerEvent::Row(Ok(Some(row))),
            ) => match MediaStorageService::read_mapping_with_server(row) {
                Ok((mapping, server)) => MappingWithServerStep::Store {
                    virtual_media_id,
                    mapping,
                    server,
                },
                Err(error) => MappingWithServerStep::FailColumn(error),
            },
            (
                MappingWithServerStep::Query { .. },
                MappingWithServerEvent::Row(Ok(None)),
            ) => MappingWithServerStep::Return(None),
            (
                MappingWithServerStep::Query { .. },
                MappingWithServerEvent::Row(Err(error)),
            ) => MappingWithServerStep::FailDatabase(error),
            (
                MappingWithServerStep::Store { mapping, server, .. },
                MappingWithServerEvent::Stored,
            ) => MappingWithServerStep::Return(Some((mapping, server))),
            (step, _) => step,
        }
    }

    /// What is left to do once the store has deleted the mappings with a virtual identifier.
    pub fn delete_media_mapping(virtual_media_id: &str, rows_affected: u64) -> (r: MappingDeletion)
        ensures
            is_deletion_of(virtual_media_id@, rows_affected, r),
    {
        if rows_affected > 0 {
            MappingDeletion { deleted: true, invalidate: Some(virtual_media_id.to_owned()) }
        } else {
            MappingDeletion { deleted: false, invalidate: None }
        }
    }

    /// Whether a cached mapping belongs to a virtual identifier.
    pub fn is_mapping_of(mapping: &MediaMapping, virtual_media_id: &str) -> (r: bool)
        ensures
            r == (mapping.virtual_media_id@ == virtual_media_id@),
    {
        crate::text::str_eq(mapping.virtual_media_id.as_str(), virtual_media_id)
    }
}

/// Two cache keys are equal only for the same item of the same server.
pub proof fn law_cache_keys_do_not_collide(
    first_id: Seq<char>,
    first_server: ServerId,
    second_id: Seq<char>,
    second_server: ServerId,
)
    requires
        cache_key(first_id, first_server) == cache_key(second_id, second_server),
    ensures
        first_id == second_id,
        first_server == second_server,
{
    let key = cache_key(first_id, first_server);
    let a = decimal::decimal(first_server.0 as int);
    let b = decimal::decimal(second_server.0 as int);
    decimal::lemma_decimal_chars(first_server.0 as int);
    decimal::lemma_decimal_chars(second_server.0 as int);
    let i = first_id.len() as int;
    let j = second_id.len() as int;
    assert(key.len() == i + 1 + a.len());
    assert(cache_key(second_id, second_server).len() == j + 1 + b.len());
    assert(key[i] == '|');
    assert(cache_key(second_id, second_server)[j] == '|');
    if i < j {
        assert(key[j] == a[j - (i + 1)]);
    } else if j < i {
        assert(cache_key(second_id, second_server)[i] == b[i - (j + 1)]);
    }
    assert(first_id =~= key.take(i));
    assert(second_id =~= key.take(i));
    assert(a =~= key.skip(i + 1));
    assert(b =~= cache_key(second_id, second_server).skip(j + 1));
    decimal::lemma_decimal_injective(first_server.0 as int, second_server.0 as int);
}

/// How far a search for a mapping is from its end.
pub open spec fn mapping_steps_left<E>(step: MappingStep<E>) -> nat {
    match step {
        MappingStep::ReadCache { .. } => 5,
        MappingStep::FindExisting { .. } => 4,
        MappingStep::Insert { .. } => 3,
        MappingStep::FindAgain { .. } => 2,
        MappingStep::Store { .. } => 1,
        MappingStep::Return(_) => 0,
        MappingStep::Fail(_) => 0,
    }
}

/// Whether an event is an outcome of a step.
pub open spec fn answers<E>(step: MappingStep<E>, event: MappingEvent<E>) -> bool {
    match step {
        MappingStep::ReadCache { .. } => event is Cached,
        MappingStep::FindExisting { .. } => event is Found,
        MappingStep::Insert { .. } => event is Inserted,
        MappingStep::FindAgain { .. } => event is Found,
        MappingStep::Store { .. } => event is Stored,
        MappingStep::Return(_) => false,
        MappingStep::Fail(_) => false,
    }
}

/// Each outcome brings the search for a mapping nearer to its end.
pub proof fn law_mapping_search_ends<E>(step: MappingStep<E>, event: MappingEvent<E>)
    requires
        answers(step, event),
    ensures
        mapping_steps_left(next_mapping_step(step, event)) < mapping_steps_left(step),
{
}

/// The key and the item of a step, as far as it has them.
pub open spec fn is_about<E>(step: MappingStep<E>, wanted_key: String, wanted: MappedItem) -> bool {
    match step {
        MappingStep::ReadCache { key, item } => key == wanted_key && item == wanted,
        MappingStep::FindExisting { key, item } => key == wanted_key && item == wanted,
        MappingStep::Insert { key, item } => key == wanted_key && item == wanted,
        MappingStep::FindAgain { key, item } => key == wanted_key && item == wanted,
        MappingStep::Store { key, .. } => key == wanted_key,
        MappingStep::Return(_) => true,
        MappingStep::Fail(_) => true,
    }
}

/// A search looks for the item it began with, stores a mapping of that item and caches it under
/// the key it began with.
pub proof fn law_search_keeps_to_its_item<E>(
    step: MappingStep<E>,
    event: MappingEvent<E>,
    key: String,
    item: MappedItem,
)
    requires
        is_about(step, key, item),
    ensures
        is_about(next_mapping_step(step, event), key, item),
{
}

/// A mapping is stored only after it was looked for in vain, and only what the cache or the store
/// gave is handed out.
pub proof fn law_mapping_comes_from_cache_or_store<E>(step: MappingStep<E>, event: MappingEvent<E>)
    ensures
        next_mapping_step(step, event) is Insert && !(step is Insert) ==> step is FindExisting
            && event == MappingEvent::<E>::Found(Ok(None)),
        forall|mapping: MediaMapping|
            next_mapping_step(step, event) == MappingStep::<E>::Return(mapping) ==> {
                ||| step == MappingStep::<E>::Return(mapping)
                ||| step matches MappingStep::Store { mapping: stored, .. } && stored == mapping
                ||| event == MappingEvent::<E>::Cached(Some(mapping))
            },
        forall|key: String, mapping: MediaMapping|
            next_mapping_step(step, event) == (MappingStep::<E>::Store { key, mapping }) ==> {
                ||| step == (MappingStep::<E>::Store { key, mapping })
                ||| event == MappingEvent::<E>::Found(Ok(Some(mapping)))
                ||| event == MappingEvent::<E>::Inserted(Ok(Some(mapping)))
            },
{
}

/// What the store and the cache hold.
pub ghost struct MappingStore {
    pub rows: Seq<MediaMapping>,
    pub cache: Map<Seq<char>, MediaMapping>,
}

/// Whether a mapping is one of an item of a server.
pub open spec fn maps(
    mapping: MediaMapping,
    original_media_id: Seq<char>,
    server_id: ServerId,
) -> bool {
    mapping.original_media_id@ == original_media_id && mapping.server_id == server_id
}

/// Whether a mapping of an item of a server is stored.
pub open spec fn has_row(store: MappingStore, original_media_id: Seq<char>, server_id: ServerId) -> bool {
    exists|i: int|
        0 <= i < store.rows.len() && maps(#[trigger] store.rows[i], original_media_id, server_id)
}

/// Whether at most one mapping of each item is stored, and the cache holds only stored mappings,
/// each under its key.
pub open spec fn is_sound(store: MappingStore) -> bool {
    &&& forall|i: int, j: int|
        0 <= i < store.rows.len() && 0 <= j < store.rows.len() && maps(
            #[trigger] store.rows[i],
            (#[trigger] store.rows[j]).original_media_id@,
            store.rows[j].server_id,
        ) ==> i == j
    &&& forall|key: Seq<char>| #[trigger]
        store.cache.contains_key(key) ==> {
            &&& store.rows.contains(store.cache[key])
            &&& key == cache_key(
                store.cache[key].original_media_id@,
                store.cache[key].server_id,
            )
        }
}

/// Whether a store may have become another one while no mapping was deleted.
pub open spec fn grows(store: MappingStore, later: MappingStore) -> bool {
    store.rows.is_prefix_of(later.rows) && is_sound(later)
}

/// Whether an event is what the store and the cache answer to a step, and `next` what they hold
/// then. The cache may have dropped what it was given, and the store may fail.
pub open spec fn store_answers<E>(
    store: MappingStore,
    step: MappingStep<E>,
    event: MappingEvent<E>,
    next: MappingStore,
) -> bool {
    match (step, event) {
        (MappingStep::ReadCache { key, .. }, MappingEvent::Cached(Some(mapping))) => {
            &&& store.cache.contains_key(key@)
            &&& store.cache[key@] == mapping
            &&& next == store
        },
        (MappingStep::ReadCache { key, .. }, MappingEvent::Cached(None)) => {
            &&& next.rows == store.rows
            &&& next.cache == store.cache.remove(key@)
        },
        (MappingStep::FindExisting { item, .. }, MappingEvent::Found(found)) => {
            &&& is_lookup(store, item, found)
            &&& next == store
        },
        (MappingStep::Insert { item, .. }, MappingEvent::Inserted(Ok(Some(mapping)))) => {
            &&& !has_row(store, item.original_media_id@, item.server_id)
            &&& maps(mapping, item.original_media_id@, item.server_id)
            &&& mapping.server_url@ == item.server_url@
            &&& next.rows == store.rows.push(mapping)
            &&& next.cache == store.cache
        },
        (MappingStep::Insert { item, .. }, MappingEvent::Inserted(Ok(None))) => {
            &&& has_row(store, item.original_media_id@, item.server_id)
            &&& next == store
        },
        (MappingStep::Insert { .. }, MappingEvent::Inserted(Err(_))) => next == store,
        (MappingStep::FindAgain { item, .. }, MappingEvent::Found(found)) => {
            &&& is_lookup(store, item, found)
            &&& next == store
        },
        (MappingStep::Store { key, mapping }, MappingEvent::Stored) => {
            &&& next.rows == store.rows
            &&& next.cache == store.cache.insert(key@, mapping)
        },
        _ => false,
    }
}

/// Whether a lookup in the store may have found something for an item.
pub open spec fn is_lookup<E>(
    store: MappingStore,
    item: MappedItem,
    found: Result<Option<MediaMapping>, E>,
) -> bool {
    match found {
        Ok(Some(mapping)) => store.rows.contains(mapping) && maps(
            mapping,
            item.original_media_id@,
            item.server_id,
        ),
        Ok(None) => !has_row(store, item.original_media_id@, item.server_id),
        Err(_) => true,
    }
}

/// Whether a step may come up in a search for an item: what it holds is the item and its key, or
/// the stored mapping of the item.
pub open spec fn is_on_the_way<E>(
    step: MappingStep<E>,
    original_media_id: Seq<char>,
    server_id: ServerId,
    store: MappingStore,
) -> bool {
    match step {
        MappingStep::ReadCache { key, item } => is_search_for(
            key,
            item,
            original_media_id,
            server_id,
        ),
        MappingStep::FindExisting { key, item } => is_search_for(
            key,
            item,
            original_media_id,
            server_id,
        ),
        MappingStep::Insert { key, item } => is_search_for(key, item, original_media_id, server_id),
        MappingStep::FindAgain { key, item } => {
            &&& is_search_for(key, item, original_media_id, server_id)
            &&& has_row(store, original_media_id, server_id)
        },
        MappingStep::Store { key, mapping } => {
            &&& key@ == cache_key(original_media_id, server_id)
            &&& store.rows.contains(mapping)
            &&& maps(mapping, original_media_id, server_id)
        },
        MappingStep::Return(mapping) => {
            &&& store.rows.contains(mapping)
            &&& maps(mapping, original_media_id, server_id)
        },
        MappingStep::Fail(failure) => failure is Database,
    }
}

proof fn lemma_rows_stay(
    store: MappingStore,
    later: MappingStore,
    original_media_id: Seq<char>,
    server_id: ServerId,
)
    requires
        store.rows.is_prefix_of(later.rows),
    ensures
        has_row(store, original_media_id, server_id) ==> has_row(
            later,
            original_media_id,
            server_id,
        ),
        forall|mapping: MediaMapping| #[trigger]
            store.rows.contains(mapping) ==> later.rows.contains(mapping),
{
    if has_row(store, original_media_id, server_id) {
        let i = choose|i: int|
            0 <= i < store.rows.len() && maps(
                #[trigger] store.rows[i],
                original_media_id,
                server_id,
            );
        assert(later.rows[i] == store.rows[i]);
    }
    assert forall|mapping: MediaMapping| #[trigger] store.rows.contains(mapping) implies later.rows.contains(
    mapping) by {
        let i = store.rows.index_of(mapping);
        assert(later.rows[i] == mapping);
    }
}

/// What the store and the cache answer keeps them sound and a search on its way: no mapping is
/// lost, none of the item is stored twice, and the search fails only where the store does.
pub proof fn law_answers_keep_the_store_sound<E>(
    store: MappingStore,
    step: MappingStep<E>,
    event: MappingEvent<E>,
    next: MappingStore,
    original_media_id: Seq<char>,
    server_id: ServerId,
)
    requires
        is_sound(store),
        is_on_the_way(step, original_media_id, server_id, store),
        store_answers(store, step, event, next),
    ensures
        grows(store, next),
        is_on_the_way(next_mapping_step(step, event), original_media_id, server_id, next),
{
    match (step, event) {
        (MappingStep::ReadCache { key, .. }, MappingEvent::Cached(Some(mapping))) => {
            law_cache_keys_do_not_collide(
                original_media_id,
                server_id,
                mapping.original_media_id@,
                mapping.server_id,
            );
        },
        (MappingStep::Insert { item, .. }, MappingEvent::Inserted(Ok(Some(mapping)))) => {
            lemma_rows_stay(store, next, original_media_id, server_id);
            assert(next.rows[store.rows.len() as int] == mapping);
            assert forall|i: int, j: int|
                0 <= i < next.rows.len() && 0 <= j < next.rows.len() && maps(
                    #[trigger] next.rows[i],
                    (#[trigger] next.rows[j]).original_media_id@,
                    next.rows[j].server_id,
                ) implies i == j by {
                let n = store.rows.len() as int;
                if i < n && j < n {
                    assert(maps(
                        store.rows[i],
                        store.rows[j].original_media_id@,
                        store.rows[j].server_id,
                    ));
                } else if i < n {
                    assert(maps(store.rows[i], original_media_id, server_id));
                } else if j < n {
                    assert(maps(store.rows[j], original_media_id, server_id));
                }
            }
        },
        _ => {},
    }
}

/// A search stays on its way while other mappings are stored.
pub proof fn law_searches_do_not_mind_growth<E>(
    store: MappingStore,
    later: MappingStore,
    step: MappingStep<E>,
    original_media_id: Seq<char>,
    server_id: ServerId,
)
    requires
        is_on_the_way(step, original_media_id, server_id, store),
        grows(store, later),
    ensures
        is_on_the_way(step, original_media_id, server_id, later),
{
    lemma_rows_stay(store, later, original_media_id, server_id);
}

/// A whole search: its steps, the answers to them, and what the store and the cache held before
/// and after each answer. Between the answers others may store mappings.
pub ghost struct MappingSearch<E> {
    pub steps: Seq<MappingStep<E>>,
    pub events: Seq<MappingEvent<E>>,
    pub before: Seq<MappingStore>,
    pub after: Seq<MappingStore>,
}

/// Whether an answer of a search leads from a step to the next one.
pub open spec fn is_answer_of<E>(search: MappingSearch<E>, i: int) -> bool {
    &&& store_answers(search.before[i], search.steps[i], search.events[i], search.after[i])
    &&& search.steps[i + 1] == next_mapping_step(search.steps[i], search.events[i])
    &&& grows(search.after[i], search.before[i + 1])
}

/// Whether a search for an item of a server begins as it must and goes on as it is answered.
pub open spec fn is_search<E>(
    search: MappingSearch<E>,
    original_media_id: Seq<char>,
    server_id: ServerId,
) -> bool {
    &&& search.steps.len() == search.events.len() + 1
    &&& search.before.len() == search.events.len() + 1
    &&& search.after.len() == search.events.len()
    &&& search.steps[0] matches MappingStep::ReadCache { key, item }
    &&& is_search_for(key, item, normalized(original_media_id), server_id)
    &&& is_sound(search.before[0])
    &&& forall|i: int| 0 <= i < search.events.len() ==> #[trigger] is_answer_of(search, i)
}

/// Each step of a search is on its way, and the store only grows meanwhile.
pub proof fn law_searches_keep_to_their_item<E>(
    search: MappingSearch<E>,
    original_media_id: Seq<char>,
    server_id: ServerId,
    i: int,
)
    requires
        is_search(search, original_media_id, server_id),
        0 <= i <= search.events.len(),
    ensures
        is_on_the_way(
            search.steps[i],
            normalized(original_media_id),
            server_id,
            search.before[i],
        ),
        grows(search.before[0], search.before[i]),
    decreases i,
{
    if i > 0 {
        law_searches_keep_to_their_item(search, original_media_id, server_id, i - 1);
        assert(is_answer_of(search, i - 1));
        law_answers_keep_the_store_sound(
            search.before[i - 1],
            search.steps[i - 1],
            search.events[i - 1],
            search.after[i - 1],
            normalized(original_media_id),
            server_id,
        );
        law_searches_do_not_mind_growth(
            search.after[i - 1],
            search.before[i],
            search.steps[i],
            normalized(original_media_id),
            server_id,
        );
    }
}

/// Whether exactly one mapping of an item of a server is stored, and which.
pub open spec fn is_only_row(
    store: MappingStore,
    mapping: MediaMapping,
    original_media_id: Seq<char>,
    server_id: ServerId,
) -> bool {
    exists|i: int|
        0 <= i < store.rows.len() && #[trigger] store.rows[i] == mapping && forall|j: int|
            0 <= j < store.rows.len() && maps(
                #[trigger] store.rows[j],
                original_media_id,
                server_id,
            ) ==> j == i
}

/// Two searches for one item of one server, under identifiers that are normalized to one, hand out
/// the same mapping, unless mappings were deleted between them. It is the one stored mapping of
/// the item, whether the cache, the store or another search gave it.
pub proof fn law_one_item_has_one_mapping<E>(
    first: MappingSearch<E>,
    first_id: Seq<char>,
    first_mapping: MediaMapping,
    second: MappingSearch<E>,
    second_id: Seq<char>,
    second_mapping: MediaMapping,
    server_id: ServerId,
)
    requires
        is_search(first, first_id, server_id),
        is_search(second, second_id, server_id),
        normalized(first_id) == normalized(second_id),
        first.steps.last() == MappingStep::<E>::Return(first_mapping),
        second.steps.last() == MappingStep::<E>::Return(second_mapping),
        grows(first.before.last(), second.before[0]),
    ensures
        second_mapping == first_mapping,
        maps(first_mapping, normalized(first_id), server_id),
        is_only_row(second.before.last(), first_mapping, normalized(first_id), server_id),
{
    let id = normalized(first_id);
    law_searches_keep_to_their_item(first, first_id, server_id, first.events.len() as int);
    law_searches_keep_to_their_item(second, second_id, server_id, second.events.len() as int);
    let store = second.before.last();
    assert(first.before.last().rows.is_prefix_of(store.rows));
    lemma_rows_stay(first.before.last(), store, id, server_id);
    let i = store.rows.index_of(first_mapping);
    let j = store.rows.index_of(second_mapping);
    assert(maps(store.rows[i], store.rows[j].original_media_id@, store.rows[j].server_id));
    assert forall|k: int|
        0 <= k < store.rows.len() && maps(#[trigger] store.rows[k], id, server_id) implies k == i by {
        assert(maps(store.rows[k], store.rows[i].original_media_id@, store.rows[i].server_id));
    }
}

/// A mapping in the cache is handed out at once. One in the store, and one that was just stored, is
/// put into the cache under the key of the search and handed out then; only where there is none one
/// is stored, and where another was stored meanwhile, that one is looked for.
pub proof fn law_searches_take_the_first_mapping_there_is<E>(
    key: String,
    item: MappedItem,
    mapping: MediaMapping,
)
    ensures
        ({
            let read = MappingStep::<E>::ReadCache { key, item };
            let find = MappingStep::<E>::FindExisting { key, item };
            let insert = MappingStep::<E>::Insert { key, item };
            let again = MappingStep::<E>::FindAgain { key, item };
            let keep = MappingStep::<E>::Store { key, mapping };
            &&& next_mapping_step(read, MappingEvent::Cached(Some(mapping))) == MappingStep::<
                E,
            >::Return(mapping)
            &&& next_mapping_step(read, MappingEvent::Cached(None)) == find
            &&& next_mapping_step(find, MappingEvent::Found(Ok(Some(mapping)))) == keep
            &&& next_mapping_step(find, MappingEvent::Found(Ok(None))) == insert
            &&& next_mapping_step(insert, MappingEvent::Inserted(Ok(Some(mapping)))) == keep
            &&& next_mapping_step(insert, MappingEvent::Inserted(Ok(None))) == again
            &&& next_mapping_step(again, MappingEvent::Found(Ok(Some(mapping)))) == keep
            &&& next_mapping_step(keep, MappingEvent::Stored) == MappingStep::<E>::Return(mapping)
        }),
{
}

/// A search fails exactly where the store does, with its error, or where a mapping that stood in the
/// way of a new one cannot be found.
pub proof fn law_searches_fail_with_the_store<E>(
    step: MappingStep<E>,
    event: MappingEvent<E>,
)
    requires
        !(step is Fail),
    ensures
        next_mapping_step(step, event) is Fail <==> {
            ||| (step is FindExisting || step is FindAgain) && event matches MappingEvent::Found(
                Err(_),
            )
            ||| step is Insert && event matches MappingEvent::Inserted(Err(_))
            ||| step is FindAgain && event matches MappingEvent::Found(Ok(None))
        },
        event matches MappingEvent::Found(Err(error)) ==> (step is FindExisting || step is FindAgain
            ==> next_mapping_step(step, event) == MappingStep::Fail(
            MappingFailure::Database(error),
        )),
        event matches MappingEvent::Inserted(Err(error)) ==> (step is Insert ==> next_mapping_step(
            step,
            event,
        ) == MappingStep::Fail(MappingFailure::Database(error))),
        step is FindAgain ==> (event matches MappingEvent::Found(Ok(None)) ==> next_mapping_step(
            step,
            event,
        ) == MappingStep::<E>::Fail(MappingFailure::RowNotFound)),
        !answers(step, event) ==> next_mapping_step(step, event) == step,
{
}

/// What the cache holds for a virtual identifier is handed out at once, and what the store holds is
/// put into the cache under the same identifier and handed out then: the mapping as it is stored,
/// with the server that its row describes. Where there is none, none is handed out.
pub proof fn law_mappings_come_with_their_server<E>(
    step: MappingWithServerStep<E>,
    event: MappingWithServerEvent<E>,
    next: MappingWithServerStep<E>,
)
    requires
        mapping_with_server_follows(step, event, next),
    ensures
        step matches MappingWithServerStep::ReadCache { virtual_media_id } ==> (
        event matches MappingWithServerEvent::Cached(found) ==> match found {
            Some(pair) => next == MappingWithServerStep::<E>::Return(Some(pair)),
            None => next == (MappingWithServerStep::<E>::Query { virtual_media_id }),
        }),
        step matches MappingWithServerStep::Query { virtual_media_id } ==> (
        event matches MappingWithServerEvent::Row(Ok(Some(row))) ==> match next {
            MappingWithServerStep::Store { virtual_media_id: id, mapping, server } => {
                &&& id == virtual_media_id
                &&& mapping == row.mapping
                &&& server.id.0 == row.server.id
                &&& server.name@ == row.server.name@
                &&& server_url::canonical(row.server.url@) == Ok::<Seq<char>, url::ParseError>(
                    server.url@,
                )
            },
            MappingWithServerStep::FailColumn(error) => error.column@ == "server_url_full"@
                && server_storage::accepted_url(row.server.url@) == Err::<
                Seq<char>,
                url::ParseError,
            >(error.source.0),
            _ => false,
        }),
        step is Query ==> (event matches MappingWithServerEvent::Row(Ok(None)) ==> next
            == MappingWithServerStep::<E>::Return(None)),
        step is Query ==> (event matches MappingWithServerEvent::Row(Err(error)) ==> next
            == MappingWithServerStep::<E>::FailDatabase(error)),
        step matches MappingWithServerStep::Store { mapping, server, .. } ==> (event is Stored
            ==> next == MappingWithServerStep::<E>::Return(Some((mapping, server)))),
        !(step is ReadCache && event is Cached || step is Query && event is Row || step is Store
            && event is Stored) ==> next == step,
{
}

/// Two spellings of one UUID are normalized to the same text, and a text that is no UUID stays as it
/// is.
pub proof fn law_spellings_of_a_uuid_are_one(first: Seq<char>, second: Seq<char>)
    ensures
        parsed_uuid(first) is Some && parsed_uuid(first) == parsed_uuid(second) ==> normalized(
            first,
        ) == normalized(second),
        parsed_uuid(first) is None ==> normalized(first) == first,
        parsed_uuid(first) is Some ==> normalized(first).len() == 32,
{
    if let Some(value) = parsed_uuid(first) {
        lemma_hex_text(value as nat, 32);
    }
}

proof fn lemma_hex_text(value: nat, digits: nat)
    ensures
        hex_text(value, digits).len() == digits,
        forall|i: int|
            0 <= i < digits ==> ('0' <= #[trigger] hex_text(value, digits)[i] && hex_text(
                value,
                digits,
            )[i] <= '9') || ('a' <= hex_text(value, digits)[i] && hex_text(value, digits)[i]
                <= 'f'),
    decreases digits,
{
    if digits > 0 {
        lemma_hex_text(value / 16, (digits - 1) as nat);
    }
}

/// The simple form of a UUID is made of thirty-two digits in lower case, and two UUIDs never share
/// it.
pub proof fn law_simple_forms_differ(first: u128, second: u128)
    ensures
        simple_form(first).len() == 32,
        forall|i: int|
            0 <= i < 32 ==> ('0' <= #[trigger] simple_form(first)[i] && simple_form(first)[i]
                <= '9') || ('a' <= simple_form(first)[i] && simple_form(first)[i] <= 'f'),
        simple_form(first) == simple_form(second) ==> first == second,
{
    lemma_hex_text(first as nat, 32);
    lemma_hex_text(second as nat, 32);
    if simple_form(first) == simple_form(second) {
        lemma_hex_text_injective(first as nat, second as nat, 32);
        lemma_sixteen_to_the(first);
        lemma_sixteen_to_the(second);
    }
}

spec fn shifted(value: nat, digits: nat) -> nat
    decreases digits,
{
    if digits == 0 {
        value
    } else {
        shifted(value / 16, (digits - 1) as nat)
    }
}

proof fn lemma_sixteen_to_the(value: u128)
    ensures
        shifted(value as nat, 32) == 0,
{
    reveal_with_fuel(shifted, 33);
}

proof fn lemma_hex_text_injective(first: nat, second: nat, digits: nat)
    requires
        hex_text(first, digits) == hex_text(second, digits),
    ensures
        shifted(first, digits) == shifted(second, digits) ==> first == second,
    decreases digits,
{
    if digits > 0 {
        let a = hex_text(first / 16, (digits - 1) as nat);
        let b = hex_text(second / 16, (digits - 1) as nat);
        let x = hex_digit((first % 16) as int);
        let y = hex_digit((second % 16) as int);
        lemma_hex_text(first / 16, (digits - 1) as nat);
        lemma_hex_text(second / 16, (digits - 1) as nat);
        assert(a.push(x).last() == b.push(y).last());
        assert(a.push(x).drop_last() =~= a);
        assert(b.push(y).drop_last() =~= b);
        assert(first % 16 == second % 16);
        lemma_hex_text_injective(first / 16, second / 16, (digits - 1) as nat);
    }
}

/// The search for the mapping of an item begins in the cache, for the item by its normalized
/// identifier on that server and by the address of the server.
pub proof fn law_searches_begin_with_the_item<E>(
    original_media_id: Seq<char>,
    server: Server,
    step: MappingStep<E>,
)
    requires
        begins_search(original_media_id, server, step),
    ensures
        step matches MappingStep::ReadCache { key, item } && {
            &&& item.server_id == server.id
            &&& item.server_url@ == server.url@
            &&& item.original_media_id@ == normalized(original_media_id)
            &&& key@ == item.original_media_id@ + seq!['|'] + decimal::decimal(server.id.0 as int)
        },
{
}

/// Entries leave the caches exactly where mappings were deleted, and they are those of the virtual
/// identifier.
pub proof fn law_deleted_mappings_leave_the_caches(
    virtual_media_id: Seq<char>,
    rows_affected: u64,
    deletion: MappingDeletion,
)
    requires
        is_deletion_of(virtual_media_id, rows_affected, deletion),
    ensures
        rows_affected == 0 ==> !deletion.deleted && deletion.invalidate is None,
        rows_affected > 0 ==> deletion.deleted && (deletion.invalidate matches Some(id) && id@
            == virtual_media_id),
{
}

} // verus!
