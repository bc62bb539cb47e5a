//! Upstream servers: what is known of them, how healthy they are and which one to prefer.

use crate::server_id::ServerId;
use crate::server_url::{self, InvalidUrl, ServerUrl};
use crate::time::Timestamp;
use std::collections::HashMap;
use vstd::prelude::*;

verus! {

broadcast use vstd::std_specs::hash::group_hash_axioms;

/// How media of a server reaches a client.
#[derive(Debug, Clone, Copy, PartialEq, Eq, Structural, Hash)]
pub enum MediaStreamingMode {
    /// The client is sent to the server.
    Redirect,
    /// The proxy passes the media on.
    Proxy,
}

/// An upstream server.
#[derive(Debug)]
pub struct Server {
    pub id: ServerId,
    pub name: String,
    pub url: ServerUrl,
    pub priority: i32,
    pub media_streaming_mode: MediaStreamingMode,
    pub created_at: Timestamp,
    pub updated_at: Timestamp,
}

/// What a [`Server`] holds.
pub struct ServerView {
    pub id: ServerId,
    pub name: Seq<char>,
    pub url: Seq<char>,
    pub priority: i32,
    pub media_streaming_mode: MediaStreamingMode,
    pub created_at: Timestamp,
    pub updated_at: Timestamp,
}

impl View for Server {
    type V = ServerView;

    open spec fn view(&self) -> ServerView {
        ServerView {
            id: self.id,
            name: self.name@,
            url: self.url@,
            priority: self.priority,
            media_streaming_mode: self.media_streaming_mode,
            created_at: self.created_at,
            updated_at: self.updated_at,
        }
    }
}

impl Clone for Server {
    fn clone(&self) -> (r: Self)
        ensures
            r == *self,
    {
        Server {
            id: self.id,
            name: self.name.clone(),
            url: self.url.clone(),
            priority: self.priority,
            media_streaming_mode: self.media_streaming_mode,
            created_at: self.created_at,
            updated_at: self.updated_at,
        }
    }
}

/// A row of the table of servers. The streaming mode is `None` where its text is no known mode.
pub struct ServerRow {
    pub id: i64,
    pub name: String,
    pub url: String,
    pub priority: i32,
    pub media_streaming_mode: Option<MediaStreamingMode>,
    pub created_at: Timestamp,
    pub updated_at: Timestamp,
}

/// A column whose text is not the address of a server.
#[derive(Debug)]
pub struct ColumnDecodeError {
    pub column: String,
    pub source: InvalidUrl,
}

/// Whether an address is accepted, and with which canonical form.
pub open spec fn accepted_url(input: Seq<char>) -> Result<Seq<char>, url::ParseError> {
    match server_url::canonical(input) {
        Ok(text) => match server_url::parsed_url(text) {
            Ok(_) => Ok(text),
            Err(error) => Err(error),
        },
        Err(error) => Err(error),
    }
}

/// Reads the address of a server out of a column.
pub fn parse_server_url_column(column: &str, value: &str) -> (r: Result<ServerUrl, ColumnDecodeError>)
    ensures
        match accepted_url(value@) {
            Ok(text) => r matches Ok(url) && url@ == text,
            Err(error) => r matches Err(e) && e.column@ == column@ && e.source.0 == error,
        },
{
    match ServerUrl::parse(value) {
        Ok(url) => Ok(url),
        Err(source) => Err(ColumnDecodeError { column: column.to_owned(), source }),
    }
}

/// The mode that stands for a mode text; one that is not known counts as `Redirect`.
pub open spec fn mode_or_redirect(mode: Option<MediaStreamingMode>) -> MediaStreamingMode {
    match mode {
        Some(mode) => mode,
        None => MediaStreamingMode::Redirect,
    }
}

/// The server that a row describes, with the canonical form of its address.
pub open spec fn server_of_row(row: ServerRow, url: Seq<char>) -> ServerView {
    ServerView {
        id: ServerId(row.id),
        name: row.name@,
        url,
        priority: row.priority,
        media_streaming_mode: mode_or_redirect(row.media_streaming_mode),
        created_at: row.created_at,
        updated_at: row.updated_at,
    }
}

/// Whether a server was read out of a row, or its address was not accepted.
pub open spec fn is_read_from(
    row: ServerRow,
    url_column: Seq<char>,
    read: Result<Server, ColumnDecodeError>,
) -> bool {
    match accepted_url(row.url@) {
        Ok(text) => read matches Ok(server) && server@ == server_of_row(row, text),
        Err(error) => read matches Err(e) && e.column@ == url_column && e.source.0 == error,
    }
}

impl Server {
    /// Reads a server out of a row, with the name of the column that holds its address.
    pub fn from_row(row: ServerRow, url_column: &str) -> (r: Result<Self, ColumnDecodeError>)
        ensures
            is_read_from(row, url_column@, r),
    {
        match parse_server_url_column(url_column, row.url.as_str()) {
            Ok(url) => Ok(
                Server {
                    id: ServerId::new(row.id),
                    name: row.name,
                    url,
                    priority: row.priority,
                    media_streaming_mode: match row.media_streaming_mode {
                        Some(mode) => mode,
                        None => MediaStreamingMode::Redirect,
                    },
                    created_at: row.created_at,
                    updated_at: row.updated_at,
                },
            ),
            Err(error) => Err(error),
        }
    }

    /// Whether two servers agree in everything.
    pub fn same(&self, other: &Server) -> (r: bool)
        ensures
            r == (self@ == other@),
    {
        self.id == other.id && self.name == other.name && crate::text::str_eq(
            self.url.as_str(),
            other.url.as_str(),
        ) && self.priority == other.priority && self.media_streaming_mode
            == other.media_streaming_mode && self.created_at == other.created_at && self.updated_at
            == other.updated_at
    }
}

/// Whether a server is the one that a row describes.
pub open spec fn is_server_of(row: ServerRow, server: Server) -> bool {
    accepted_url(row.url@) matches Ok(text) && server@ == server_of_row(row, text)
}

/// Whether servers are those that rows describe, in their order.
pub open spec fn are_servers_of(rows: Seq<ServerRow>, servers: Seq<Server>) -> bool {
    &&& servers.len() == rows.len()
    &&& forall|i: int| 0 <= i < servers.len() ==> is_server_of(rows[i], #[trigger] servers[i])
}

/// Whether an error is about the first row whose address cannot be read.
pub open spec fn is_row_error(rows: Seq<ServerRow>, error: ColumnDecodeError) -> bool {
    exists|i: int|
        {
            &&& 0 <= i < rows.len()
            &&& forall|k: int| 0 <= k < i ==> accepted_url((#[trigger] rows[k]).url@) is Ok
            &&& accepted_url((#[trigger] rows[i]).url@) == Err::<Seq<char>, _>(error.source.0)
            &&& error.column@ == "url"@
        }
}

/// A server that is about to be stored.
pub struct NewServer {
    pub name: String,
    pub url: ServerUrl,
    pub priority: i32,
    pub media_streaming_mode: MediaStreamingMode,
}

/// What a server tells of itself to anyone.
#[derive(Debug)]
pub struct PublicSystemInfo {
    pub version: Option<String>,
}

impl Clone for PublicSystemInfo {
    fn clone(&self) -> (r: Self)
        ensures
            r == *self,
    {
        match &self.version {
            Some(version) => PublicSystemInfo { version: Some(version.clone()) },
            None => PublicSystemInfo { version: None },
        }
    }
}

/// How a server fared when it was last asked.
#[derive(Debug)]
pub enum ServerHealthStatus {
    /// The server answered.
    Healthy(PublicSystemInfo),
    /// The server did not answer, for a reason.
    Unhealthy(String),
}

impl Clone for ServerHealthStatus {
    fn clone(&self) -> (r: Self)
        ensures
            r == *self,
    {
        match self {
            ServerHealthStatus::Healthy(info) => ServerHealthStatus::Healthy(info.clone()),
            ServerHealthStatus::Unhealthy(reason) => ServerHealthStatus::Unhealthy(reason.clone()),
        }
    }
}

impl ServerHealthStatus {
    pub fn is_healthy(&self) -> (r: bool)
        ensures
            r == (self is Healthy),
    {
        match self {
            ServerHealthStatus::Healthy(_) => true,
            ServerHealthStatus::Unhealthy(_) => false,
        }
    }
}

/// The statuses after a round of checks: the last one reported for a server counts.
pub open spec fn recorded(
    known: Map<i64, ServerHealthStatus>,
    reports: Seq<(ServerId, ServerHealthStatus)>,
) -> Map<i64, ServerHealthStatus>
    decreases reports.len(),
{
    if reports.len() == 0 {
        known
    } else {
        recorded(known, reports.drop_last()).insert(reports.last().0.0, reports.last().1)
    }
}

/// Whether a server is known to be healthy.
pub open spec fn is_healthy(known: Map<i64, ServerHealthStatus>, id: ServerId) -> bool {
    known.contains_key(id.0) && known[id.0] is Healthy
}

/// The first server that is known to be healthy; the number of servers if there is none.
pub open spec fn first_healthy(servers: Seq<Server>, known: Map<i64, ServerHealthStatus>) -> int
    decreases servers.len(),
{
    if servers.len() == 0 || is_healthy(known, servers.first().id) {
        0
    } else {
        1 + first_healthy(servers.drop_first(), known)
    }
}

/// Whether a server is the one to prefer: the first one that is known to be healthy, or else the
/// first one.
pub open spec fn is_best(
    servers: Seq<Server>,
    known: Map<i64, ServerHealthStatus>,
    best: Option<Server>,
) -> bool {
    &&& servers.len() == 0 ==> best is None
    &&& servers.len() > 0 && first_healthy(servers, known) < servers.len() ==> best == Some(
        servers[first_healthy(servers, known)],
    )
    &&& servers.len() > 0 && first_healthy(servers, known) >= servers.len() ==> best == Some(
        servers[0],
    )
}

/// Whether what is stored for a server that is added is what was given, with the address in
/// canonical form, or the address was not accepted.
pub open spec fn is_added(
    name: Seq<char>,
    url: Seq<char>,
    priority: i32,
    media_streaming_mode: MediaStreamingMode,
    added: Result<NewServer, InvalidUrl>,
) -> bool {
    match accepted_url(url) {
        Ok(text) => added matches Ok(server) && server.name@ == name && server.url@ == text
            && server.priority == priority && server.media_streaming_mode == media_streaming_mode,
        Err(error) => added matches Err(e) && e.0 == error,
    }
}

/// Whether a status is that of a server; one that was never checked is not healthy.
pub open spec fn is_status_of(
    known: Map<i64, ServerHealthStatus>,
    server_id: ServerId,
    status: ServerHealthStatus,
) -> bool {
    &&& known.contains_key(server_id.0) ==> status == known[server_id.0]
    &&& !known.contains_key(server_id.0) ==> (
    status matches ServerHealthStatus::Unhealthy(reason) && reason@ == "Unknown Server Status"@)
}

/// The part of the store of servers that is held in memory: how each of them fared when it was
/// last asked.
pub struct ServerStorageService {
    health_status: HashMap<i64, ServerHealthStatus>,
}

impl View for ServerStorageService {
    type V = Map<i64, ServerHealthStatus>;

    closed spec fn view(&self) -> Map<i64, ServerHealthStatus> {
        self.health_status@
    }
}

impl ServerStorageService {
    pub fn new() -> (r: Self)
        ensures
            r@ == Map::<i64, ServerHealthStatus>::empty(),
    {
        ServerStorageService { health_status: HashMap::new() }
    }

    /// What is stored for a server that is added: its address in canonical form. An address that is
    /// not accepted is refused.
    pub fn add_server(
        name: &str,
        url: &str,
        priority: i32,
        media_streaming_mode: MediaStreamingMode,
    ) -> (r: Result<NewServer, InvalidUrl>)
        ensures
            is_added(name@, url@, priority, media_streaming_mode, r),
    {
        match ServerUrl::parse(url) {
            Ok(url) => Ok(NewServer { name: name.to_owned(), url, priority, media_streaming_mode }),
            Err(error) => Err(error),
        }
    }

    /// Reads the servers out of rows; the first address that cannot be read is reported.
    pub fn list_servers(rows: Vec<ServerRow>) -> (r: Result<Vec<Server>, ColumnDecodeError>)
        ensures
            match r {
                Ok(servers) => are_servers_of(rows@, servers@),
                Err(error) => is_row_error(rows@, error),
            },
    {
        let ghost all = rows@;
        let mut servers: Vec<Server> = Vec::new();
        for row in it: rows.into_iter()
            invariant
                it.seq() == all,
                it.index() <= all.len(),
                servers.len() == it.index(),
                are_servers_of(all.take(it.index() as int), servers@),
        {
            let ghost i = it.index() as int;
            let ghost before = servers@;
            assert(row == all[i]);
            match Server::from_row(row, "url") {
                Ok(server) => {
                    servers.push(server);
                    assert forall|k: int| 0 <= k < i + 1 implies is_server_of(
                        all.take(i + 1)[k],
                        #[trigger] servers@[k],
                    ) by {
                        if k < i {
                            assert(is_server_of(all.take(i)[k], before[k]));
                        }
                    }
                },
                Err(error) => {
                    assert forall|k: int| 0 <= k < i implies accepted_url(
                        (#[trigger] all[k]).url@,
                    ) is Ok by {
                        assert(is_server_of(all.take(i)[k], before[k]));
                    }
                    return Err(error);
                },
            }
        }
        assert(all.take(all.len() as int) =~= all);
        Ok(servers)
    }

    /// Takes over the outcome of a round of checks.
    pub fn check_servers_health(&mut self, reports: Vec<(ServerId, ServerHealthStatus)>)
        ensures
            final(self)@ == recorded(old(self)@, reports@),
    {
        let ghost known = self.health_status@;
        let mut i: usize = 0;
        assert(reports@.take(0) =~= Seq::empty());
        while i < reports.len()
            invariant
                i <= reports.len(),
                self.health_status@ == recorded(known, reports@.take(i as int)),
            decreases reports.len() - i,
        {
            assert(reports@.take(i + 1).drop_last() =~= reports@.take(i as int));
            let (id, status) = &reports[i];
            self.health_status.insert(id.as_i64(), status.clone());
            i = i + 1;
        }
        assert(reports@.take(i as int) =~= reports@);
    }

    /// The status of a server; one that was never checked is not healthy.
    pub fn server_status(&self, server_id: ServerId) -> (r: ServerHealthStatus)
        ensures
            is_status_of(self@, server_id, r),
    {
        match self.health_status.get(&server_id.as_i64()) {
            Some(status) => status.clone(),
            None => ServerHealthStatus::Unhealthy("Unknown Server Status".to_owned()),
        }
    }

    /// Forgets a server that was deleted.
    pub fn delete_server(&mut self, server_id: ServerId)
        ensures
            final(self)@ == old(self)@.remove(server_id.0),
    {
        self.health_status.remove(&server_id.as_i64());
    }

    /// The first server that is healthy; where none is, the first one.
    pub fn get_best_server(&self, servers: &Vec<Server>) -> (r: Option<Server>)
        ensures
            is_best(servers@, self@, r),
    {
        if servers.len() == 0 {
            return None;
        }
        let mut i: usize = 0;
        assert(servers@.skip(0) =~= servers@);
        while i < servers.len()
            invariant
                i <= servers.len(),
                servers.len() > 0,
                first_healthy(servers@, self@) == i + first_healthy(servers@.skip(i as int), self@),
            decreases servers.len() - i,
        {
            let ghost rest = servers@.skip(i as int);
            assert(rest.first() == servers[i as int]);
            assert(rest.drop_first() =~= servers@.skip(i + 1));
            if self.server_status(servers[i].id).is_healthy() {
                return Some(servers[i].clone());
            }
            i = i + 1;
        }
        Some(servers[0].clone())
    }
}

proof fn lemma_first_healthy(servers: Seq<Server>, known: Map<i64, ServerHealthStatus>)
    ensures
        0 <= first_healthy(servers, known) <= servers.len(),
        forall|i: int|
            0 <= i < first_healthy(servers, known) ==> !is_healthy(known, (#[trigger] servers[i]).id),
        first_healthy(servers, known) < servers.len() ==> is_healthy(
            known,
            servers[first_healthy(servers, known)].id,
        ),
    decreases servers.len(),
{
    if servers.len() > 0 && !is_healthy(known, servers.first().id) {
        let rest = servers.drop_first();
        lemma_first_healthy(rest, known);
        assert forall|i: int| 0 <= i < first_healthy(servers, known) implies !is_healthy(
            known,
            (#[trigger] servers[i]).id,
        ) by {
            if i > 0 {
                assert(rest[i - 1] == servers[i]);
            }
        }
    }
}

/// Where servers are listed by falling priority and some server is healthy, the one that is
/// preferred is healthy and no healthy server has a higher priority.
pub proof fn law_best_server_is_healthy_and_of_highest_priority(
    servers: Seq<Server>,
    known: Map<i64, ServerHealthStatus>,
    j: int,
)
    requires
        forall|a: int, b: int|
            0 <= a < b < servers.len() ==> (#[trigger] servers[a]).priority >= (
            #[trigger] servers[b]).priority,
        0 <= j < servers.len(),
        is_healthy(known, servers[j].id),
    ensures
        first_healthy(servers, known) < servers.len(),
        is_healthy(known, servers[first_healthy(servers, known)].id),
        servers[first_healthy(servers, known)].priority >= servers[j].priority,
{
    lemma_first_healthy(servers, known);
}

/// What was reported last for a server is what is known of it afterwards; nothing changes for a
/// server without a report.
pub proof fn law_last_report_counts(
    known: Map<i64, ServerHealthStatus>,
    reports: Seq<(ServerId, ServerHealthStatus)>,
    id: i64,
)
    ensures
        (forall|i: int| 0 <= i < reports.len() ==> (#[trigger] reports[i]).0.0 != id) ==> {
            &&& recorded(known, reports).contains_key(id) == known.contains_key(id)
            &&& known.contains_key(id) ==> recorded(known, reports)[id] == known[id]
        },
        forall|k: int|
            0 <= k < reports.len() && (#[trigger] reports[k]).0.0 == id && (forall|i: int|
                k < i < reports.len() ==> (#[trigger] reports[i]).0.0 != id) ==> {
                &&& recorded(known, reports).contains_key(id)
                &&& recorded(known, reports)[id] == reports[k].1
            },
    decreases reports.len(),
{
    if reports.len() > 0 {
        let init = reports.drop_last();
        law_last_report_counts(known, init, id);
        assert forall|k: int|
            0 <= k < reports.len() && (#[trigger] reports[k]).0.0 == id && (forall|i: int|
                k < i < reports.len() ==> (#[trigger] reports[i]).0.0 != id) implies {
            &&& recorded(known, reports).contains_key(id)
            &&& recorded(known, reports)[id] == reports[k].1
        } by {
            if k < reports.len() - 1 {
                assert(init[k] == reports[k]);
                assert forall|i: int| k < i < init.len() implies (#[trigger] init[i]).0.0 != id by {
                    assert(init[i] == reports[i]);
                }
                assert(reports[reports.len() - 1].0.0 != id);
            }
        }
        if forall|i: int| 0 <= i < reports.len() ==> (#[trigger] reports[i]).0.0 != id {
            assert forall|i: int| 0 <= i < init.len() implies (#[trigger] init[i]).0.0 != id by {
                assert(init[i] == reports[i]);
            }
            assert(reports[reports.len() - 1].0.0 != id);
        }
    }
}

/// A server is preferred wherever there is one. It is the first one in the list that is known to be
/// healthy, and the first one of all only where none is.
pub proof fn law_first_healthy_server_is_preferred(
    servers: Seq<Server>,
    known: Map<i64, ServerHealthStatus>,
    best: Option<Server>,
)
    requires
        is_best(servers, known, best),
    ensures
        best is None <==> servers.len() == 0,
        best matches Some(server) ==> {
            ||| exists|i: int|
                0 <= i < servers.len() && (#[trigger] servers[i]) == server && known.contains_key(
                    servers[i].id.0,
                ) && known[servers[i].id.0] is Healthy && forall|j: int|
                    0 <= j < i ==> !(known.contains_key((#[trigger] servers[j]).id.0)
                        && known[servers[j].id.0] is Healthy)
            ||| server == servers[0] && forall|j: int|
                0 <= j < servers.len() ==> !(known.contains_key((#[trigger] servers[j]).id.0)
                    && known[servers[j].id.0] is Healthy)
        },
{
    lemma_first_healthy(servers, known);
    let k = first_healthy(servers, known);
    if k < servers.len() {
        assert(is_healthy(known, servers[k].id));
        assert forall|j: int| 0 <= j < k implies !(known.contains_key((#[trigger] servers[j]).id.0)
            && known[servers[j].id.0] is Healthy) by {
            assert(!is_healthy(known, servers[j].id));
        }
    } else {
        assert forall|j: int| 0 <= j < servers.len() implies !(known.contains_key(
            (#[trigger] servers[j]).id.0,
        ) && known[servers[j].id.0] is Healthy) by {
            assert(!is_healthy(known, servers[j].id));
        }
    }
}

/// A server is what its row says, with the canonical form of its address; a mode that is not known
/// counts as sending the client to the server.
pub proof fn law_servers_are_what_their_rows_say(row: ServerRow, server: Server)
    requires
        is_server_of(row, server),
    ensures
        server.id.0 == row.id,
        server.name@ == row.name@,
        server_url::canonical(row.url@) == Ok::<Seq<char>, url::ParseError>(server.url@),
        server.priority == row.priority,
        server.created_at == row.created_at,
        server.updated_at == row.updated_at,
        row.media_streaming_mode matches Some(mode) ==> server.media_streaming_mode == mode,
        row.media_streaming_mode is None ==> server.media_streaming_mode
            == MediaStreamingMode::Redirect,
{
    assert(server@.id == server.id);
}

/// An address is accepted exactly where it has a canonical form that can be read, and that form is
/// what is kept; otherwise the first of the two failures is told.
pub proof fn law_accepted_addresses_are_canonical(input: Seq<char>)
    ensures
        accepted_url(input) is Ok <==> server_url::canonical(input) is Ok && server_url::parsed_url(
            server_url::canonical(input)->Ok_0,
        ) is Ok,
        accepted_url(input) matches Ok(text) ==> server_url::canonical(input) == Ok::<
            Seq<char>,
            url::ParseError,
        >(text),
        server_url::canonical(input) matches Err(error) ==> accepted_url(input) == Err::<
            Seq<char>,
            url::ParseError,
        >(error),
{
}

/// A row is read exactly where its address is accepted, and then gives the server that it describes;
/// otherwise the error names the column of the address.
pub proof fn law_rows_with_accepted_addresses_are_read(
    row: ServerRow,
    url_column: Seq<char>,
    read: Result<Server, ColumnDecodeError>,
)
    requires
        is_read_from(row, url_column, read),
    ensures
        read is Ok <==> accepted_url(row.url@) is Ok,
        read matches Ok(server) ==> {
            &&& server.id.0 == row.id
            &&& server.name@ == row.name@
            &&& server_url::canonical(row.url@) == Ok::<Seq<char>, url::ParseError>(server.url@)
            &&& server.priority == row.priority
            &&& server.created_at == row.created_at
            &&& server.updated_at == row.updated_at
            &&& row.media_streaming_mode matches Some(mode) ==> server.media_streaming_mode == mode
            &&& row.media_streaming_mode is None ==> server.media_streaming_mode
                == MediaStreamingMode::Redirect
        },
        read matches Err(error) ==> error.column@ == url_column && accepted_url(row.url@) == Err::<
            Seq<char>,
            url::ParseError,
        >(error.source.0),
{
    if let Ok(server) = read {
        law_servers_are_what_their_rows_say(row, server);
    }
}

/// A server is stored with the name, the priority and the mode that were given and the canonical form
/// of its address, exactly where the address is accepted.
pub proof fn law_servers_are_stored_as_given(
    name: Seq<char>,
    url: Seq<char>,
    priority: i32,
    media_streaming_mode: MediaStreamingMode,
    added: Result<NewServer, InvalidUrl>,
)
    requires
        is_added(name, url, priority, media_streaming_mode, added),
    ensures
        added is Ok <==> accepted_url(url) is Ok,
        added matches Ok(server) ==> {
            &&& server.name@ == name
            &&& server_url::canonical(url) == Ok::<Seq<char>, url::ParseError>(server.url@)
            &&& server.priority == priority
            &&& server.media_streaming_mode == media_streaming_mode
        },
        added matches Err(error) ==> accepted_url(url) == Err::<Seq<char>, url::ParseError>(error.0),
{
}

/// A server is healthy only where it was found to be so when it was last asked.
pub proof fn law_servers_are_healthy_only_if_they_answered(
    known: Map<i64, ServerHealthStatus>,
    server_id: ServerId,
    status: ServerHealthStatus,
)
    requires
        is_status_of(known, server_id, status),
    ensures
        known.contains_key(server_id.0) ==> status == known[server_id.0],
        !known.contains_key(server_id.0) ==> (status matches ServerHealthStatus::Unhealthy(reason)
            && reason@ == "Unknown Server Status"@),
{
}

} // verus!
