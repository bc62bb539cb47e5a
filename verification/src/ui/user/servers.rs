//! The page on which a user connects to servers.

use crate::picking;
use crate::server_id::ServerId;
use crate::server_storage::Server;
use crate::status;
use crate::text;
use crate::ui::admin::servers::LoginOutcome;
use crate::ui::response::{self, UiResponse};
use vstd::prelude::*;
use vstd::string::*;

verus! {

/// What the list of servers shows.
pub struct UserServerListTemplate {
    pub username: String,
    /// The servers that the user is connected to.
    pub servers: Vec<Server>,
    /// The other servers.
    pub unmapped_servers: Vec<Server>,
    pub ui_route: String,
}

/// What is entered to connect to a server.
pub struct ConnectServerForm {
    pub username: String,
    pub password: String,
}

/// What the status of a server shows.
pub struct UserServerStatusTemplate {
    pub username: Option<String>,
    pub error_message: Option<String>,
    pub server_version: String,
}

/// Whether a server is among some servers.
pub open spec fn is_among(servers: Seq<Server>, id: ServerId) -> bool {
    exists|i: int| 0 <= i < servers.len() && (#[trigger] servers[i]).id == id
}

/// The servers that are not among others, in their order.
pub open spec fn others(all: Seq<Server>, mapped: Seq<Server>) -> Seq<Server> {
    all.filter(|server: Server| !is_among(mapped, server.id))
}

fn has_server(servers: &Vec<Server>, id: ServerId) -> (r: bool)
    ensures
        r == is_among(servers@, id),
{
    let mut i: usize = 0;
    while i < servers.len()
        invariant
            i <= servers.len(),
            forall|k: int| 0 <= k < i ==> (#[trigger] servers@[k]).id != id,
        decreases servers.len() - i,
    {
        if servers[i].id == id {
            assert(servers@[i as int].id == id);
            return true;
        }
        i = i + 1;
    }
    false
}

/// Whether a list shows the servers that the user is connected to and the others.
pub open spec fn are_shown(
    username: String,
    mapped: Option<Vec<Server>>,
    all: Option<Vec<Server>>,
    ui_route: String,
    shown: Result<UserServerListTemplate, UiResponse>,
) -> bool {
    match (mapped, all) {
        (Some(mapped), Some(all)) => {
            &&& shown matches Ok(list)
            &&& list.username == username
            &&& list.servers@ == mapped@
            &&& list.unmapped_servers@ == others(all@, mapped@)
            &&& list.ui_route == ui_route
        },
        _ => shown matches Err(answer) && answer@ == response::text_answer(
            status::INTERNAL_SERVER_ERROR,
            "Database error"@,
        ),
    }
}

/// The servers that the user is connected to and the others, or an answer where either could not
/// be listed.
pub fn get_user_servers(
    username: String,
    mapped: Option<Vec<Server>>,
    all: Option<Vec<Server>>,
    ui_route: String,
) -> (r: Result<UserServerListTemplate, UiResponse>)
    ensures
        are_shown(username, mapped, all, ui_route, r),
{
    let (mapped, all) = match (mapped, all) {
        (Some(mapped), Some(all)) => (mapped, all),
        _ => return Err(response::plain(status::INTERNAL_SERVER_ERROR, "Database error")),
    };
    let ghost rule = |server: Server| !is_among(mapped@, server.id);
    let mut unmapped_servers: Vec<Server> = Vec::new();
    let mut i: usize = 0;
    proof {
        reveal(Seq::filter);
        assert(all@.take(0) =~= Seq::empty());
    }
    while i < all.len()
        invariant
            i <= all.len(),
            rule == (|server: Server| !is_among(mapped@, server.id)),
            unmapped_servers@ == all@.take(i as int).filter(rule),
        decreases all.len() - i,
    {
        proof {
            reveal(Seq::filter);
            assert(all@.take(i + 1).drop_last() =~= all@.take(i as int));
        }
        if !has_server(&mapped, all[i].id) {
            unmapped_servers.push(all[i].clone());
        }
        i = i + 1;
    }
    assert(all@.take(i as int) =~= all@);
    Ok(UserServerListTemplate { username, servers: mapped, unmapped_servers, ui_route })
}

/// What has to be done next to connect a user to a server.
pub enum ConnectStep {
    /// Look the server up.
    GetServer { form: ConnectServerForm },
    /// Create a client for the server.
    CreateClient { form: ConnectServerForm },
    /// Log in to the server.
    Authenticate { form: ConnectServerForm },
    /// Store what was entered as the account of the user on the server.
    AddMapping { form: ConnectServerForm },
    /// Answer.
    Answer(UiResponse),
}

/// What came of a step.
pub enum ConnectEvent {
    /// Whether the server is there; nothing where that could not be found out.
    Server(Option<bool>),
    /// Whether the client could be created.
    Client(bool),
    Login(LoginOutcome),
    /// Whether the account could be stored.
    Mapped(bool),
}

/// Whether a step is to answer with some markup.
pub open spec fn answers_with(step: ConnectStep, code: u16, markup: Seq<char>) -> bool {
    step matches ConnectStep::Answer(answer) && answer@ == response::html_answer(code, markup)
}

/// Whether a step follows from the outcome of another.
pub open spec fn connect_step_follows(
    step: ConnectStep,
    event: ConnectEvent,
    ui_route: Seq<char>,
    next: ConnectStep,
) -> bool {
    match (step, event) {
        (ConnectStep::GetServer { form }, ConnectEvent::Server(found)) => match found {
            Some(true) => next == (ConnectStep::CreateClient { form }),
            Some(false) => answers_with(
                next,
                status::NOT_FOUND,
                response::span_markup("Server not found"@),
            ),
            None => answers_with(
                next,
                status::INTERNAL_SERVER_ERROR,
                response::span_markup("Database error"@),
            ),
        },
        (ConnectStep::CreateClient { form }, ConnectEvent::Client(created)) => if created {
            next == (ConnectStep::Authenticate { form })
        } else {
            answers_with(
                next,
                status::INTERNAL_SERVER_ERROR,
                response::span_markup("Client error"@),
            )
        },
        (ConnectStep::Authenticate { form }, ConnectEvent::Login(outcome)) => match outcome {
            LoginOutcome::Accepted { .. } => next == (ConnectStep::AddMapping { form }),
            LoginOutcome::Refused => answers_with(
                next,
                status::OK,
                response::box_markup("Invalid credentials"@),
            ),
            LoginOutcome::Failed { message } => answers_with(
                next,
                status::OK,
                response::box_markup("Connection error: "@ + message@),
            ),
        },
        (ConnectStep::AddMapping { .. }, ConnectEvent::Mapped(stored)) => if stored {
            next matches ConnectStep::Answer(answer) && answer@ == response::redirect_answer(
                ui_route,
            )
        } else {
            answers_with(next, status::OK, response::box_markup("Database error"@))
        },
        (step, _) => next == step,
    }
}

/// Goes on with connecting a user to a server.
pub fn connect_server(step: ConnectStep, event: ConnectEvent, ui_route: &str) -> (r: ConnectStep)
    ensures
        connect_step_follows(step, event, ui_route@, r),
{
    match (step, event) {
        (ConnectStep::GetServer { form }, ConnectEvent::Server(found)) => match found {
            Some(found) => if found {
                ConnectStep::CreateClient { form }
            } else {
                ConnectStep::Answer(response::error_span(status::NOT_FOUND, "Server not found"))
            },
            None => ConnectStep::Answer(
                response::error_span(status::INTERNAL_SERVER_ERROR, "Database error"),
            ),
        },
        (ConnectStep::CreateClient { form }, ConnectEvent::Client(created)) => if created {
            ConnectStep::Authenticate { form }
        } else {
            ConnectStep::Answer(
                response::error_span(status::INTERNAL_SERVER_ERROR, "Client error"),
            )
        },
        (ConnectStep::Authenticate { form }, ConnectEvent::Login(outcome)) => match outcome {
            LoginOutcome::Accepted { .. } => ConnectStep::AddMapping { form },
            LoginOutcome::Refused => ConnectStep::Answer(
                response::error_box(status::OK, "Invalid credentials"),
            ),
            LoginOutcome::Failed { message } => ConnectStep::Answer(
                response::error_box(
                    status::OK,
                    "Connection error: ".to_owned().concat(message.as_str()).as_str(),
                ),
            ),
        },
        (ConnectStep::AddMapping { .. }, ConnectEvent::Mapped(stored)) => if stored {
            ConnectStep::Answer(response::redirect(ui_route))
        } else {
            ConnectStep::Answer(response::error_box(status::OK, "Database error"))
        },
        (step, _) => step,
    }
}

/// The account that is stored is the one with which the server has just accepted the login.
pub proof fn law_only_accepted_accounts_are_stored(
    login: ConnectStep,
    event: ConnectEvent,
    ui_route: Seq<char>,
    next: ConnectStep,
)
    requires
        connect_step_follows(login, event, ui_route, next),
        next is AddMapping,
        !(login is AddMapping),
    ensures
        event matches ConnectEvent::Login(LoginOutcome::Accepted { .. }),
        next matches ConnectStep::AddMapping { form } && login == (ConnectStep::Authenticate {
            form,
        }),
{
}

/// An account of a user on a server.
pub struct UserMapping {
    pub id: i64,
    pub server_id: ServerId,
}

/// The first account on a server.
pub open spec fn first_mapping(mappings: Seq<UserMapping>, server_id: ServerId) -> Option<i64>
    decreases mappings.len(),
{
    if mappings.len() == 0 {
        None
    } else if mappings[0].server_id == server_id {
        Some(mappings[0].id)
    } else {
        first_mapping(mappings.skip(1), server_id)
    }
}

fn find_mapping(mappings: &Vec<UserMapping>, server_id: ServerId) -> (r: Option<i64>)
    ensures
        r == first_mapping(mappings@, server_id),
{
    let mut i: usize = 0;
    assert(mappings@.skip(0) =~= mappings@);
    while i < mappings.len()
        invariant
            i <= mappings.len(),
            first_mapping(mappings@, server_id) == first_mapping(
                mappings@.skip(i as int),
                server_id,
            ),
        decreases mappings.len() - i,
    {
        assert(mappings@.skip(i as int).skip(1) =~= mappings@.skip(i + 1));
        if mappings[i].server_id == server_id {
            return Some(mappings[i].id);
        }
        i = i + 1;
    }
    None
}

/// What has to be done next to disconnect a user from a server.
pub enum DisconnectStep {
    /// Look the server up.
    GetServer,
    /// List the accounts of the user.
    ListMappings { server_id: ServerId },
    /// Delete an account.
    DeleteMapping { mapping_id: i64 },
    /// Answer.
    Answer(UiResponse),
}

/// What came of a step.
pub enum DisconnectEvent {
    /// The server, if it is there; nothing where that could not be found out.
    Server(Option<Option<ServerId>>),
    /// The accounts; nothing where they could not be listed.
    Mappings(Option<Vec<UserMapping>>),
    /// Whether the account could be deleted.
    Deleted(bool),
}

/// Whether a step is to answer with a status alone.
pub open spec fn answers_emptily(step: DisconnectStep, code: u16) -> bool {
    step matches DisconnectStep::Answer(answer) && answer@ == response::empty_answer(code)
}

/// Whether a step follows from the outcome of another.
pub open spec fn disconnect_step_follows(
    step: DisconnectStep,
    event: DisconnectEvent,
    ui_route: Seq<char>,
    next: DisconnectStep,
) -> bool {
    match (step, event) {
        (DisconnectStep::GetServer, DisconnectEvent::Server(found)) => match found {
            Some(Some(server_id)) => next == (DisconnectStep::ListMappings { server_id }),
            Some(None) => answers_emptily(next, status::NOT_FOUND),
            None => answers_emptily(next, status::INTERNAL_SERVER_ERROR),
        },
        (DisconnectStep::ListMappings { server_id }, DisconnectEvent::Mappings(found)) => {
            match found {
                Some(mappings) => match first_mapping(mappings@, server_id) {
                    Some(mapping_id) => next == (DisconnectStep::DeleteMapping { mapping_id }),
                    None => answers_emptily(next, status::NOT_FOUND),
                },
                None => answers_emptily(next, status::INTERNAL_SERVER_ERROR),
            }
        },
        (DisconnectStep::DeleteMapping { .. }, DisconnectEvent::Deleted(deleted)) => if deleted {
            next matches DisconnectStep::Answer(answer) && answer@ == response::redirect_answer(
                ui_route,
            )
        } else {
            answers_emptily(next, status::INTERNAL_SERVER_ERROR)
        },
        (step, _) => next == step,
    }
}

/// Goes on with disconnecting a user from a server.
pub fn delete_server_mapping(step: DisconnectStep, event: DisconnectEvent, ui_route: &str) -> (r:
    DisconnectStep)
    ensures
        disconnect_step_follows(step, event, ui_route@, r),
{
    match (step, event) {
        (DisconnectStep::GetServer, DisconnectEvent::Server(found)) => match found {
            Some(Some(server_id)) => DisconnectStep::ListMappings { server_id },
            Some(None) => DisconnectStep::Answer(response::empty(status::NOT_FOUND)),
            None => DisconnectStep::Answer(response::empty(status::INTERNAL_SERVER_ERROR)),
        },
        (DisconnectStep::ListMappings { server_id }, DisconnectEvent::Mappings(found)) => {
            match found {
                Some(mappings) => match find_mapping(&mappings, server_id) {
                    Some(mapping_id) => DisconnectStep::DeleteMapping { mapping_id },
                    None => DisconnectStep::Answer(response::empty(status::NOT_FOUND)),
                },
                None => DisconnectStep::Answer(response::empty(status::INTERNAL_SERVER_ERROR)),
            }
        },
        (DisconnectStep::DeleteMapping { .. }, DisconnectEvent::Deleted(deleted)) => if deleted {
            DisconnectStep::Answer(response::redirect(ui_route))
        } else {
            DisconnectStep::Answer(response::empty(status::INTERNAL_SERVER_ERROR))
        },
        (step, _) => step,
    }
}

/// The account that is deleted is one on the server; where none is found, there is none on it.
pub proof fn law_deleted_account_is_on_the_server(mappings: Seq<UserMapping>, server_id: ServerId)
    ensures
        match first_mapping(mappings, server_id) {
            Some(id) => exists|i: int|
                0 <= i < mappings.len() && (#[trigger] mappings[i]).id == id
                    && mappings[i].server_id == server_id,
            None => forall|i: int|
                0 <= i < mappings.len() ==> (#[trigger] mappings[i]).server_id != server_id,
        },
    decreases mappings.len(),
{
    if mappings.len() > 0 {
        if mappings[0].server_id == server_id {
            assert(mappings[0].id == first_mapping(mappings, server_id)->0);
        } else {
            let rest = mappings.skip(1);
            law_deleted_account_is_on_the_server(rest, server_id);
            match first_mapping(rest, server_id) {
                Some(id) => {
                    let k = choose|k: int|
                        0 <= k < rest.len() && (#[trigger] rest[k]).id == id && rest[k].server_id
                            == server_id;
                    assert(mappings[k + 1].id == id);
                },
                None => {
                    assert forall|i: int| 0 <= i < mappings.len() implies (
                    #[trigger] mappings[i]).server_id != server_id by {
                        if i > 0 {
                            assert(rest[i - 1] == mappings[i]);
                        }
                    }
                },
            }
        }
    }
}

/// What a user and a server tell each other on a login.
pub struct ServerGreeting {
    /// The name of the user on the server.
    pub name: String,
    /// The version of the server, if it tells it.
    pub version: Option<String>,
}

/// What has to be done next to show the status of a server to a user.
pub enum StatusStep {
    /// Look the server up.
    GetServer,
    /// Log in to the server.
    Authenticate,
    /// Render the status.
    Render { shown: UserServerStatusTemplate },
    /// Answer.
    Answer(UiResponse),
}

/// What came of a step.
pub enum StatusEvent {
    /// Whether the server is there; nothing where that could not be found out.
    Server(Option<bool>),
    /// What the server told, or why the login failed.
    Login(Result<ServerGreeting, String>),
    /// The status, if it could be rendered.
    Rendered(Option<String>),
}

/// Whether a step is to answer with an error in a line.
pub open spec fn answers_with_span(step: StatusStep, code: u16, message: Seq<char>) -> bool {
    step matches StatusStep::Answer(answer) && answer@ == response::html_answer(
        code,
        response::span_markup(message),
    )
}

/// Whether a step follows from the outcome of another.
pub open spec fn status_step_follows(step: StatusStep, event: StatusEvent, next: StatusStep) -> bool {
    match (step, event) {
        (StatusStep::GetServer, StatusEvent::Server(found)) => match found {
            Some(true) => next is Authenticate,
            Some(false) => answers_with_span(next, status::NOT_FOUND, "Server not found"@),
            None => answers_with_span(next, status::INTERNAL_SERVER_ERROR, "Database error"@),
        },
        (StatusStep::Authenticate, StatusEvent::Login(Ok(greeting))) => {
            &&& next matches StatusStep::Render { shown }
            &&& text::optional_string(shown.username) == Some(greeting.name@)
            &&& shown.error_message is None
            &&& shown.server_version@ == match greeting.version {
                Some(version) => version@,
                None => "unknown"@,
            }
        },
        (StatusStep::Authenticate, StatusEvent::Login(Err(error))) => answers_with_span(
            next,
            status::OK,
            error@,
        ),
        (StatusStep::Render { .. }, StatusEvent::Rendered(Some(markup))) => {
            next matches StatusStep::Answer(answer) && answer@ == response::html_answer(
                status::OK,
                markup@,
            )
        },
        (StatusStep::Render { .. }, StatusEvent::Rendered(None)) => answers_with_span(
            next,
            status::INTERNAL_SERVER_ERROR,
            "Template error"@,
        ),
        (step, _) => next == step,
    }
}

/// Goes on with showing the status of a server to a user.
pub fn check_user_server_status(step: StatusStep, event: StatusEvent) -> (r: StatusStep)
    ensures
        status_step_follows(step, event, r),
{
    match (step, event) {
        (StatusStep::GetServer, StatusEvent::Server(found)) => match found {
            Some(found) => if found {
                StatusStep::Authenticate
            } else {
                StatusStep::Answer(response::error_span(status::NOT_FOUND, "Server not found"))
            },
            None => StatusStep::Answer(
                response::error_span(status::INTERNAL_SERVER_ERROR, "Database error"),
            ),
        },
        (StatusStep::Authenticate, StatusEvent::Login(Ok(greeting))) => {
            let server_version = match greeting.version {
                Some(version) => version,
                None => "unknown".to_owned(),
            };
            StatusStep::Render {
                shown: UserServerStatusTemplate {
                    username: Some(greeting.name),
                    error_message: None,
                    server_version,
                },
            }
        },
        (StatusStep::Authenticate, StatusEvent::Login(Err(error))) => StatusStep::Answer(
            response::error_span(status::OK, error.as_str()),
        ),
        (StatusStep::Render { .. }, StatusEvent::Rendered(Some(markup))) => StatusStep::Answer(
            response::html(status::OK, markup),
        ),
        (StatusStep::Render { .. }, StatusEvent::Rendered(None)) => StatusStep::Answer(
            response::error_span(status::INTERNAL_SERVER_ERROR, "Template error"),
        ),
        (step, _) => step,
    }
}

/// Every server is shown either as one that the user is connected to or as another one, never as
/// both.
pub proof fn law_servers_are_connected_or_not(all: Seq<Server>, mapped: Seq<Server>, i: int)
    requires
        0 <= i < all.len(),
    ensures
        is_among(mapped, all[i].id) != others(all, mapped).contains(all[i]),
{
    let rule = |server: Server| !is_among(mapped, server.id);
    if others(all, mapped).contains(all[i]) {
        let k = choose|k: int|
            0 <= k < others(all, mapped).len() && others(all, mapped)[k] == all[i];
        all.lemma_filter_pred(rule, k);
    }
    if !is_among(mapped, all[i].id) {
        all.lemma_filter_contains(rule, i);
    }
}

/// The list shows the servers that the user is connected to, as they are, and of all servers exactly
/// those with identifiers that none of these has, in their order. Where either could not be listed,
/// the answer is an internal server error.
pub proof fn law_all_servers_are_shown(
    username: String,
    mapped: Option<Vec<Server>>,
    all: Option<Vec<Server>>,
    ui_route: String,
    shown: Result<UserServerListTemplate, UiResponse>,
)
    requires
        are_shown(username, mapped, all, ui_route, shown),
    ensures
        shown is Ok <==> mapped is Some && all is Some,
        shown matches Ok(list) ==> {
            &&& list.username == username
            &&& list.ui_route == ui_route
            &&& list.servers@ == mapped->0@
            &&& picking::are_picked(
                all->0@,
                list.unmapped_servers@,
                |server: Server|
                    forall|i: int|
                        0 <= i < mapped->0.len() ==> (#[trigger] mapped->0[i]).id != server.id,
            )
        },
        shown matches Err(answer) ==> answer.status == 500 && answer@.body
            == response::UiBodyView::Text("Database error"@),
{
    if let (Some(connected), Some(every)) = (mapped, all) {
        let keeps = |server: Server| !is_among(connected@, server.id);
        let wanted = |server: Server|
            forall|i: int|
                0 <= i < mapped->0.len() ==> (#[trigger] mapped->0[i]).id != server.id;
        assert forall|server: Server| #[trigger] keeps(server) == wanted(server) by {
            if keeps(server) {
                assert forall|i: int| 0 <= i < connected.len() implies (
                #[trigger] connected[i]).id != server.id by {
                    assert(connected@[i].id != server.id);
                }
            }
            if wanted(server) && is_among(connected@, server.id) {
                let i = choose|i: int|
                    0 <= i < connected@.len() && (#[trigger] connected@[i]).id == server.id;
                assert(mapped->0[i].id == server.id);
            }
        }
        assert(keeps =~= wanted);
        let places = picking::lemma_filter_picks(every@, keeps);
        assert(picking::is_picking(every@, every@.filter(keeps), wanted, places));
    }
}

/// An accepted login leads through all steps to an account with what was entered, and then on to the
/// page.
pub proof fn law_accepted_users_are_connected(
    step: ConnectStep,
    event: ConnectEvent,
    ui_route: Seq<char>,
    next: ConnectStep,
)
    requires
        connect_step_follows(step, event, ui_route, next),
    ensures
        step matches ConnectStep::GetServer { form } ==> (event == ConnectEvent::Server(Some(true))
            ==> next == (ConnectStep::CreateClient { form })),
        step matches ConnectStep::CreateClient { form } ==> (event == ConnectEvent::Client(true)
            ==> next == (ConnectStep::Authenticate { form })),
        step matches ConnectStep::Authenticate { form } ==> (event matches ConnectEvent::Login(
            LoginOutcome::Accepted { .. },
        ) ==> next == (ConnectStep::AddMapping { form })),
        step is AddMapping && event == ConnectEvent::Mapped(true) ==> (
        next matches ConnectStep::Answer(answer) && answer.status == 200 && answer@.hx_redirect
            == Some(seq!['/'] + ui_route) && answer@.body == response::UiBodyView::Empty),
        !(step is GetServer && event is Server) && !(step is CreateClient && event is Client) && !(
        step is Authenticate && event is Login) && !(step is AddMapping && event is Mapped) ==> next
            == step,
{
    response::law_answers_tell_what_they_should(200, ui_route);
}

/// Whether a step is to answer with a status and a message.
pub open spec fn is_told(step: ConnectStep, code: u16, message: Seq<char>) -> bool {
    &&& step matches ConnectStep::Answer(answer)
    &&& answer.status == code
    &&& answer.hx_redirect is None
    &&& response::tells(answer@, message)
}

/// Whatever fails on the way ends the work with an answer that tells it, and no account is stored.
pub proof fn law_failures_end_connecting(
    step: ConnectStep,
    event: ConnectEvent,
    ui_route: Seq<char>,
    next: ConnectStep,
)
    requires
        connect_step_follows(step, event, ui_route, next),
    ensures
        step is GetServer && event == ConnectEvent::Server(Some(false)) ==> is_told(
            next,
            404,
            "Server not found"@,
        ),
        step is GetServer && event == ConnectEvent::Server(None) ==> is_told(
            next,
            500,
            "Database error"@,
        ),
        step is CreateClient && event == ConnectEvent::Client(false) ==> is_told(
            next,
            500,
            "Client error"@,
        ),
        step is Authenticate && event == ConnectEvent::Login(LoginOutcome::Refused) ==> is_told(
            next,
            200,
            "Invalid credentials"@,
        ),
        step is Authenticate ==> (event matches ConnectEvent::Login(
            LoginOutcome::Failed { message },
        ) ==> is_told(next, 200, "Connection error: "@ + message@)),
        step is AddMapping && event == ConnectEvent::Mapped(false) ==> is_told(
            next,
            200,
            "Database error"@,
        ),
{
    response::law_answers_tell_what_they_should(404, "Server not found"@);
    response::law_answers_tell_what_they_should(500, "Database error"@);
    response::law_answers_tell_what_they_should(500, "Client error"@);
    response::law_answers_tell_what_they_should(200, "Invalid credentials"@);
    response::law_answers_tell_what_they_should(200, "Database error"@);
    if let ConnectEvent::Login(LoginOutcome::Failed { message }) = event {
        response::law_answers_tell_what_they_should(200, "Connection error: "@ + message@);
    }
}

/// The account that is deleted is the first one of the user on the server that was found; a server
/// that is not there and a user without an account on it are answered as not found, and what could
/// not be looked up or deleted as an internal server error.
pub proof fn law_users_are_disconnected_from_the_server(
    step: DisconnectStep,
    event: DisconnectEvent,
    ui_route: Seq<char>,
    next: DisconnectStep,
)
    requires
        disconnect_step_follows(step, event, ui_route, next),
    ensures
        step is GetServer ==> (event matches DisconnectEvent::Server(found) ==> match found {
            Some(Some(server_id)) => next == (DisconnectStep::ListMappings { server_id }),
            Some(None) => is_answered(next, 404),
            None => is_answered(next, 500),
        }),
        step matches DisconnectStep::ListMappings { server_id } ==> (
        event matches DisconnectEvent::Mappings(Some(mappings)) ==> {
            ||| exists|i: int|
                0 <= i < mappings.len() && (#[trigger] mappings[i]).server_id == server_id && next
                    == (DisconnectStep::DeleteMapping { mapping_id: mappings[i].id }) && forall|
                    j: int,
                |
                    0 <= j < i ==> (#[trigger] mappings[j]).server_id != server_id
            ||| is_answered(next, 404) && forall|j: int|
                0 <= j < mappings.len() ==> (#[trigger] mappings[j]).server_id != server_id
        }),
        step is ListMappings && event == DisconnectEvent::Mappings(None) ==> is_answered(next, 500),
        step is DeleteMapping && event == DisconnectEvent::Deleted(true) ==> (
        next matches DisconnectStep::Answer(answer) && answer.status == 200 && answer@.hx_redirect
            == Some(seq!['/'] + ui_route)),
        step is DeleteMapping && event == DisconnectEvent::Deleted(false) ==> is_answered(
            next,
            500,
        ),
        !(step is GetServer && event is Server) && !(step is ListMappings && event is Mappings) && !(
        step is DeleteMapping && event is Deleted) ==> next == step,
{
    response::law_answers_tell_what_they_should(200, ui_route);
    if let DisconnectStep::ListMappings { server_id } = step {
        if let DisconnectEvent::Mappings(Some(mappings)) = event {
            lemma_first_mapping(mappings@, server_id);
            match first_mapping(mappings@, server_id) {
                Some(id) => {
                    let i = choose|i: int|
                        0 <= i < mappings@.len() && (#[trigger] mappings@[i]).server_id == server_id
                            && mappings@[i].id == id && forall|j: int|
                            0 <= j < i ==> (#[trigger] mappings@[j]).server_id != server_id;
                    assert(mappings[i].server_id == server_id);
                    assert forall|j: int| 0 <= j < i implies (#[trigger] mappings[j]).server_id
                        != server_id by {
                        assert(mappings@[j].server_id != server_id);
                    }
                },
                None => {
                    assert forall|j: int| 0 <= j < mappings.len() implies (
                    #[trigger] mappings[j]).server_id != server_id by {
                        assert(mappings@[j].server_id != server_id);
                    }
                },
            }
        }
    }
}

/// Whether a step is to answer with a status alone.
pub open spec fn is_answered(step: DisconnectStep, code: u16) -> bool {
    &&& step matches DisconnectStep::Answer(answer)
    &&& answer.status == code
    &&& answer.hx_redirect is None
    &&& answer.body is Empty
}

proof fn lemma_first_mapping(mappings: Seq<UserMapping>, server_id: ServerId)
    ensures
        match first_mapping(mappings, server_id) {
            Some(id) => exists|i: int|
                0 <= i < mappings.len() && (#[trigger] mappings[i]).server_id == server_id
                    && mappings[i].id == id && forall|j: int|
                    0 <= j < i ==> (#[trigger] mappings[j]).server_id != server_id,
            None => forall|j: int|
                0 <= j < mappings.len() ==> (#[trigger] mappings[j]).server_id != server_id,
        },
    decreases mappings.len(),
{
    if mappings.len() > 0 {
        let rest = mappings.skip(1);
        lemma_first_mapping(rest, server_id);
        if mappings[0].server_id != server_id {
            match first_mapping(rest, server_id) {
                Some(id) => {
                    let k = choose|k: int|
                        0 <= k < rest.len() && (#[trigger] rest[k]).server_id == server_id
                            && rest[k].id == id && forall|j: int|
                            0 <= j < k ==> (#[trigger] rest[j]).server_id != server_id;
                    assert(mappings[k + 1].server_id == server_id);
                    assert forall|j: int| 0 <= j < k + 1 implies (#[trigger] mappings[j]).server_id
                        != server_id by {
                        if j > 0 {
                            assert(rest[j - 1] == mappings[j]);
                        }
                    }
                },
                None => {
                    assert forall|j: int| 0 <= j < mappings.len() implies (
                    #[trigger] mappings[j]).server_id != server_id by {
                        if j > 0 {
                            assert(rest[j - 1] == mappings[j]);
                        }
                    }
                },
            }
        }
    }
}

/// The status of a server shows the name of the user there and the version that the server told, or
/// that it is unknown. A login that failed is shown in its place, and what could not be found out or
/// rendered is answered with an error.
pub proof fn law_status_shows_what_the_server_told(
    step: StatusStep,
    event: StatusEvent,
    next: StatusStep,
)
    requires
        status_step_follows(step, event, next),
    ensures
        step is GetServer && event == StatusEvent::Server(Some(true)) ==> next
            == StatusStep::Authenticate,
        step is GetServer && event == StatusEvent::Server(Some(false)) ==> is_shown(
            next,
            404,
            "Server not found"@,
        ),
        step is GetServer && event == StatusEvent::Server(None) ==> is_shown(
            next,
            500,
            "Database error"@,
        ),
        step is Authenticate ==> (event matches StatusEvent::Login(Ok(greeting)) ==> {
            &&& next matches StatusStep::Render { shown }
            &&& shown.username matches Some(name)
            &&& name@ == greeting.name@
            &&& shown.error_message is None
            &&& greeting.version matches Some(version) ==> shown.server_version@ == version@
            &&& greeting.version is None ==> shown.server_version@ == "unknown"@
        }),
        step is Authenticate ==> (event matches StatusEvent::Login(Err(error)) ==> is_shown(
            next,
            200,
            error@,
        )),
        step is Render ==> (event matches StatusEvent::Rendered(Some(markup)) ==> (
        next matches StatusStep::Answer(answer) && answer.status == 200 && answer@.body
            == response::UiBodyView::Html(markup@))),
        step is Render && event == StatusEvent::Rendered(None) ==> is_shown(
            next,
            500,
            "Template error"@,
        ),
        !(step is GetServer && event is Server) && !(step is Authenticate && event is Login) && !(
        step is Render && event is Rendered) ==> next == step,
{
    response::law_answers_tell_what_they_should(404, "Server not found"@);
    response::law_answers_tell_what_they_should(500, "Database error"@);
    response::law_answers_tell_what_they_should(500, "Template error"@);
    if let StatusEvent::Login(Err(error)) = event {
        response::law_answers_tell_what_they_should(200, error@);
    }
}

/// Whether a step is to answer with a status and a message.
pub open spec fn is_shown(step: StatusStep, code: u16, message: Seq<char>) -> bool {
    step matches StatusStep::Answer(answer) && answer.status == code && response::tells(
        answer@,
        message,
    )
}

} // verus!
