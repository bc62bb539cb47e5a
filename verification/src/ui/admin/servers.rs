//! The page on which servers are managed.

use crate::picking;
use crate::server_id::ServerId;
use crate::server_storage::{
    MediaStreamingMode, Server, ServerHealthStatus, ServerStorageService,
};
use crate::session_storage::{self, SessionStorage, TrackedPlaybackSession};
use crate::status;
use crate::text;
use crate::ui::response::{self, UiResponse, UiResponseView};
use vstd::prelude::*;
use vstd::string::*;

verus! {

/// What the page shows.
pub struct ServersPageTemplate {
    pub ui_route: String,
}

/// A server in the list.
pub struct ServerWithAdmin {
    pub server: Server,
    pub has_admin: bool,
    pub is_redirect: bool,
    pub is_proxy: bool,
}

/// What the list of servers shows.
pub struct ServerListTemplate {
    pub servers: Vec<ServerWithAdmin>,
    pub ui_route: String,
}

/// What is entered for a new server.
pub struct AddServerForm {
    pub name: String,
    pub url: String,
    pub priority: i32,
    pub media_streaming_mode: String,
}

/// What is entered for the priority of a server.
pub struct UpdatePriorityForm {
    pub priority: i32,
}

/// What is entered for the way in which a server has its media delivered.
pub struct UpdateMediaStreamingModeForm {
    pub media_streaming_mode: String,
}

/// What is entered for the administrator of a server.
pub struct AddServerAdminForm {
    pub username: String,
    pub password: String,
}

/// The page.
pub fn servers_page(ui_route: String) -> (r: ServersPageTemplate)
    ensures
        r.ui_route == ui_route,
{
    ServersPageTemplate { ui_route }
}

/// The entry of a server in the list.
pub open spec fn list_entry(server: Server, has_admin: bool) -> ServerWithAdmin {
    ServerWithAdmin {
        server,
        has_admin,
        is_redirect: server.media_streaming_mode == MediaStreamingMode::Redirect,
        is_proxy: server.media_streaming_mode != MediaStreamingMode::Redirect,
    }
}

/// The list of servers, each with whether it has an administrator.
pub fn render_server_list(servers: Vec<(Server, bool)>, ui_route: String) -> (r: ServerListTemplate)
    ensures
        r.ui_route == ui_route,
        r.servers@ == servers@.map_values(|entry: (Server, bool)| list_entry(entry.0, entry.1)),
{
    let ghost entries = servers@.map_values(
        |entry: (Server, bool)| list_entry(entry.0, entry.1),
    );
    let mut list: Vec<ServerWithAdmin> = Vec::new();
    let mut i: usize = 0;
    while i < servers.len()
        invariant
            i <= servers.len(),
            entries == servers@.map_values(
                |entry: (Server, bool)| list_entry(entry.0, entry.1),
            ),
            list@ =~= entries.take(i as int),
        decreases servers.len() - i,
    {
        let is_redirect = servers[i].0.media_streaming_mode == MediaStreamingMode::Redirect;
        list.push(
            ServerWithAdmin {
                server: servers[i].0.clone(),
                has_admin: servers[i].1,
                is_redirect,
                is_proxy: !is_redirect,
            },
        );
        i = i + 1;
    }
    assert(list@ =~= entries);
    ServerListTemplate { servers: list, ui_route }
}

/// What is answered with the list of servers, if it could be rendered.
pub open spec fn list_answer(rendered: Option<Seq<char>>) -> UiResponseView {
    match rendered {
        Some(markup) => response::html_answer(status::OK, markup),
        None => response::text_answer(status::INTERNAL_SERVER_ERROR, "Error"@),
    }
}

/// Answers with the list of servers, if it could be rendered.
pub fn get_server_list(rendered: Option<String>) -> (r: UiResponse)
    ensures
        r@ == list_answer(text::optional_string(rendered)),
{
    match rendered {
        Some(markup) => response::html(status::OK, markup),
        None => response::plain(status::INTERNAL_SERVER_ERROR, "Error"),
    }
}

/// A server that may be added.
pub struct ServerToAdd {
    pub name: String,
    pub url: String,
    pub priority: i32,
    pub media_streaming_mode: MediaStreamingMode,
}

/// Whether a priority is one that a server may have.
pub open spec fn is_priority(priority: i32) -> bool {
    1 <= priority <= 999
}

/// What a form says without the white space around it.
pub open spec fn entered(text: Seq<char>) -> Seq<char> {
    text::trimmed(text, text::CharClass::WhiteSpace)
}

/// What is wrong with what was entered for a new server, if anything is.
pub open spec fn add_server_complaint(
    form: AddServerForm,
    mode: Option<MediaStreamingMode>,
) -> Option<Seq<char>> {
    if entered(form.name@).len() == 0 {
        Some("Server name cannot be empty"@)
    } else if entered(form.url@).len() == 0 {
        Some("Server URL cannot be empty"@)
    } else if !is_priority(form.priority) {
        Some("Priority must be between 1 and 999"@)
    } else if mode is None {
        Some("Invalid streaming mode"@)
    } else {
        None
    }
}

/// Whether what was entered for a new server was checked as it should be.
pub open spec fn is_checked(
    form: AddServerForm,
    mode: Option<MediaStreamingMode>,
    checked: Result<ServerToAdd, UiResponse>,
) -> bool {
    match add_server_complaint(form, mode) {
        Some(complaint) => checked matches Err(answer) && answer@ == response::html_answer(
            status::BAD_REQUEST,
            response::alert_markup(complaint),
        ),
        None => {
            &&& checked matches Ok(server)
            &&& server.name@ == entered(form.name@)
            &&& server.url@ == entered(form.url@)
            &&& server.priority == form.priority
            &&& mode == Some(server.media_streaming_mode)
        },
    }
}

/// Checks what was entered for a new server; `mode` is what the entered mode reads as, if it can
/// be read.
pub fn add_server(form: &AddServerForm, mode: Option<MediaStreamingMode>) -> (r: Result<
    ServerToAdd,
    UiResponse,
>)
    ensures
        is_checked(*form, mode, r),
{
    let name = text::trim(form.name.as_str(), text::CharClass::WhiteSpace);
    if name.is_empty() {
        return Err(response::alert(status::BAD_REQUEST, "Server name cannot be empty"));
    }
    let url = text::trim(form.url.as_str(), text::CharClass::WhiteSpace);
    if url.is_empty() {
        return Err(response::alert(status::BAD_REQUEST, "Server URL cannot be empty"));
    }
    if form.priority < 1 || form.priority > 999 {
        return Err(response::alert(status::BAD_REQUEST, "Priority must be between 1 and 999"));
    }
    match mode {
        Some(media_streaming_mode) => Ok(
            ServerToAdd {
                name: name.to_owned(),
                url: url.to_owned(),
                priority: form.priority,
                media_streaming_mode,
            },
        ),
        None => Err(response::alert(status::BAD_REQUEST, "Invalid streaming mode")),
    }
}

/// Why a server could not be stored.
pub enum AddServerFailure {
    /// The address was not accepted.
    InvalidUrl,
    /// The store refused it.
    Database { constraint: Option<String>, message: String },
    /// Anything else.
    Other { message: String },
}

/// Whether a refusal of the store is about the address of a server.
pub open spec fn is_about_url(constraint: Option<Seq<char>>, message: Seq<char>) -> bool {
    ||| constraint == Some("idx_servers_url_unique"@)
    ||| text::has_text(message, "idx_servers_url_unique"@)
    ||| text::has_text(message, "servers.url"@)
}

/// Whether a refusal of the store is about the name of a server.
pub open spec fn is_about_name(message: Seq<char>) -> bool {
    ||| text::has_text(message, "servers.name"@)
    ||| text::has_text(message, "UNIQUE constraint failed"@)
}

/// What is said of a server that could not be stored.
pub open spec fn failure_text(failure: AddServerFailure) -> Seq<char> {
    match failure {
        AddServerFailure::InvalidUrl => "Invalid URL format"@,
        AddServerFailure::Database { constraint, message } => if is_about_url(
            text::optional_string(constraint),
            message@,
        ) {
            "A server with that URL already exists"@
        } else if is_about_name(message@) {
            "A server with that name already exists"@
        } else {
            "Failed to add server"@
        },
        AddServerFailure::Other { message } => if text::has_text(message@, "Invalid URL"@) {
            "Invalid URL format"@
        } else {
            "Failed to add server"@
        },
    }
}

/// Answers that a server could not be stored.
pub fn add_server_failed(failure: &AddServerFailure) -> (r: UiResponse)
    ensures
        r@ == response::html_answer(
            status::BAD_REQUEST,
            response::alert_markup(failure_text(*failure)),
        ),
{
    let message = match failure {
        AddServerFailure::InvalidUrl => "Invalid URL format",
        AddServerFailure::Database { constraint, message } => {
            let by_constraint = match constraint {
                Some(constraint) => text::str_eq(constraint.as_str(), "idx_servers_url_unique"),
                None => false,
            };
            if by_constraint || text::contains(message.as_str(), "idx_servers_url_unique")
                || text::contains(message.as_str(), "servers.url") {
                "A server with that URL already exists"
            } else if text::contains(message.as_str(), "servers.name") || text::contains(
                message.as_str(),
                "UNIQUE constraint failed",
            ) {
                "A server with that name already exists"
            } else {
                "Failed to add server"
            }
        },
        AddServerFailure::Other { message } => if text::contains(message.as_str(), "Invalid URL") {
            "Invalid URL format"
        } else {
            "Failed to add server"
        },
    };
    response::alert(status::BAD_REQUEST, message)
}

/// What came of a change to a stored server.
#[derive(Debug, Clone, Copy, PartialEq, Eq, Structural)]
pub enum ChangeOutcome {
    Changed,
    NotFound,
    Failed,
}

/// What is answered to a change, unless it succeeded: then the list of servers is.
pub open spec fn change_answer(
    outcome: ChangeOutcome,
    not_found: Seq<char>,
    failed: Seq<char>,
) -> Option<UiResponseView> {
    match outcome {
        ChangeOutcome::Changed => None,
        ChangeOutcome::NotFound => Some(
            response::html_answer(status::NOT_FOUND, response::alert_markup(not_found)),
        ),
        ChangeOutcome::Failed => Some(
            response::html_answer(status::INTERNAL_SERVER_ERROR, response::alert_markup(failed)),
        ),
    }
}

/// What an answer says, if there is one.
pub open spec fn answer_view(answer: Option<UiResponse>) -> Option<UiResponseView> {
    match answer {
        Some(answer) => Some(answer@),
        None => None,
    }
}

fn answer_change(outcome: ChangeOutcome, not_found: &str, failed: &str) -> (r: Option<UiResponse>)
    ensures
        answer_view(r) == change_answer(outcome, not_found@, failed@),
{
    match outcome {
        ChangeOutcome::Changed => None,
        ChangeOutcome::NotFound => Some(response::alert(status::NOT_FOUND, not_found)),
        ChangeOutcome::Failed => Some(response::alert(status::INTERNAL_SERVER_ERROR, failed)),
    }
}

/// Checks the mode that was entered; `mode` is what it reads as, if it can be read.
pub fn check_media_streaming_mode(mode: Option<MediaStreamingMode>) -> (r: Result<
    MediaStreamingMode,
    UiResponse,
>)
    ensures
        match mode {
            Some(mode) => r matches Ok(m) && m == mode,
            None => r matches Err(answer) && answer@ == response::html_answer(
                status::BAD_REQUEST,
                response::alert_markup("Invalid streaming mode"@),
            ),
        },
{
    match mode {
        Some(mode) => Ok(mode),
        None => Err(response::alert(status::BAD_REQUEST, "Invalid streaming mode")),
    }
}

/// What is answered once the mode of a server was changed, or not; nothing where the list of
/// servers is.
pub fn update_server_media_streaming_mode(outcome: ChangeOutcome) -> (r: Option<UiResponse>)
    ensures
        answer_view(r) == change_answer(
            outcome,
            "Server not found"@,
            "Failed to update streaming mode"@,
        ),
{
    answer_change(outcome, "Server not found", "Failed to update streaming mode")
}

/// Whether what is held of a server has changed as it should once the server was deleted, or not.
pub open spec fn is_deleted(
    server_id: ServerId,
    outcome: ChangeOutcome,
    health: Map<i64, ServerHealthStatus>,
    health_after: Map<i64, ServerHealthStatus>,
    sessions: Seq<TrackedPlaybackSession>,
    sessions_after: Seq<TrackedPlaybackSession>,
) -> bool {
    &&& health_after == if outcome == ChangeOutcome::Failed {
        health
    } else {
        health.remove(server_id.0)
    }
    &&& sessions_after == if outcome == ChangeOutcome::Changed {
        session_storage::kept(sessions, session_storage::Keep::OtherServers { server_id })
    } else {
        sessions
    }
}

/// What is answered once a server was deleted, or not; nothing where the list of servers is. With
/// the server its playback sessions go. What is known of its health goes unless the store failed.
pub fn delete_server(
    server_id: ServerId,
    outcome: ChangeOutcome,
    servers: &mut ServerStorageService,
    play_sessions: &mut SessionStorage,
) -> (r: Option<UiResponse>)
    ensures
        answer_view(r) == change_answer(
            outcome,
            "Server not found"@,
            "Failed to delete server"@,
        ),
        is_deleted(
            server_id,
            outcome,
            old(servers)@,
            final(servers)@,
            old(play_sessions)@,
            final(play_sessions)@,
        ),
        final(play_sessions).ttl() == old(play_sessions).ttl(),
        old(play_sessions).well_formed() ==> final(play_sessions).well_formed(),
{
    if outcome != ChangeOutcome::Failed {
        servers.delete_server(server_id);
    }
    if outcome == ChangeOutcome::Changed {
        play_sessions.remove_sessions_for_server(server_id);
    }
    answer_change(outcome, "Server not found", "Failed to delete server")
}

/// Whether the priority that was entered was checked as it should be.
pub open spec fn is_checked_priority(
    form: UpdatePriorityForm,
    checked: Result<i32, UiResponse>,
) -> bool {
    &&& is_priority(form.priority) ==> (checked matches Ok(priority) && priority == form.priority)
    &&& !is_priority(form.priority) ==> (checked matches Err(answer) && answer@
        == response::html_answer(
        status::BAD_REQUEST,
        response::alert_markup("Priority must be between 1 and 999"@),
    ))
}

/// Checks the priority that was entered.
pub fn check_priority(form: &UpdatePriorityForm) -> (r: Result<i32, UiResponse>)
    ensures
        is_checked_priority(*form, r),
{
    if form.priority < 1 || form.priority > 999 {
        Err(response::alert(status::BAD_REQUEST, "Priority must be between 1 and 999"))
    } else {
        Ok(form.priority)
    }
}

/// What is answered once the priority of a server was changed, or not; nothing where the list of
/// servers is.
pub fn update_server_priority(outcome: ChangeOutcome) -> (r: Option<UiResponse>)
    ensures
        answer_view(r) == change_answer(
            outcome,
            "Server not found"@,
            "Failed to update priority"@,
        ),
{
    answer_change(outcome, "Server not found", "Failed to update priority")
}

/// What is answered once the administrator of a server was deleted, or not; nothing where the list
/// of servers is.
pub fn delete_server_admin(outcome: ChangeOutcome) -> (r: Option<UiResponse>)
    ensures
        answer_view(r) == change_answer(
            outcome,
            "Admin not found"@,
            "Failed to delete admin"@,
        ),
{
    answer_change(outcome, "Admin not found", "Failed to delete admin")
}

/// What has to be done next to give a server an administrator.
pub enum AddAdminStep {
    /// Look the server up.
    GetServer { form: AddServerAdminForm },
    /// Create a client for the server.
    CreateClient { form: AddServerAdminForm },
    /// Log in to the server.
    Authenticate { form: AddServerAdminForm },
    /// Encrypt the password.
    Encrypt { form: AddServerAdminForm },
    /// Store the name of the user and the encrypted password.
    Save { username: String },
    /// Render the list of servers.
    RenderList,
    /// Answer.
    Answer(UiResponse),
}

/// How a login ended.
pub enum LoginOutcome {
    /// The user may log in; the flag says whether the user is an administrator, if that is told.
    Accepted { is_administrator: Option<bool> },
    /// The name or the password is wrong.
    Refused,
    /// The server could not be asked, for a reason.
    Failed { message: String },
}

/// What came of a step.
pub enum AddAdminEvent {
    /// Whether the server is there; nothing where that could not be found out.
    Server(Option<bool>),
    /// Whether the client could be created.
    Client(bool),
    Login(LoginOutcome),
    /// Whether the password could be encrypted.
    Encrypted(bool),
    /// Whether the administrator could be stored.
    Saved(bool),
    /// The list of servers, or why it could not be rendered.
    Rendered(Result<String, String>),
}

/// Whether a step is to answer with a box that shows an error.
pub open spec fn answers_with_box(step: AddAdminStep, code: u16, message: Seq<char>) -> bool {
    step matches AddAdminStep::Answer(answer) && answer@ == response::html_answer(
        code,
        response::box_markup(message),
    )
}

/// Whether a step follows from the outcome of another.
pub open spec fn admin_step_follows(
    step: AddAdminStep,
    event: AddAdminEvent,
    next: AddAdminStep,
) -> bool {
    match (step, event) {
        (AddAdminStep::GetServer { form }, AddAdminEvent::Server(found)) => match found {
            Some(true) => next == (AddAdminStep::CreateClient { form }),
            Some(false) => answers_with_box(next, status::NOT_FOUND, "Server not found"@),
            None => answers_with_box(next, status::INTERNAL_SERVER_ERROR, "Database error"@),
        },
        (AddAdminStep::CreateClient { form }, AddAdminEvent::Client(created)) => if created {
            next == (AddAdminStep::Authenticate { form })
        } else {
            answers_with_box(next, status::INTERNAL_SERVER_ERROR, "Client error"@)
        },
        (AddAdminStep::Authenticate { form }, AddAdminEvent::Login(outcome)) => match outcome {
            LoginOutcome::Accepted { is_administrator } => if is_administrator == Some(true) {
                next == (AddAdminStep::Encrypt { form })
            } else {
                answers_with_box(
                    next,
                    status::OK,
                    "User is not an administrator on this server"@,
                )
            },
            LoginOutcome::Refused => answers_with_box(next, status::OK, "Invalid credentials"@),
            LoginOutcome::Failed { message } => answers_with_box(
                next,
                status::OK,
                "Connection error: "@ + message@,
            ),
        },
        (AddAdminStep::Encrypt { form }, AddAdminEvent::Encrypted(encrypted)) => if encrypted {
            next == (AddAdminStep::Save { username: form.username })
        } else {
            answers_with_box(next, status::INTERNAL_SERVER_ERROR, "Encryption failed"@)
        },
        (AddAdminStep::Save { .. }, AddAdminEvent::Saved(saved)) => if saved {
            next is RenderList
        } else {
            answers_with_box(next, status::INTERNAL_SERVER_ERROR, "Database error"@)
        },
        (AddAdminStep::RenderList, AddAdminEvent::Rendered(Ok(markup))) => {
            next matches AddAdminStep::Answer(answer) && answer@ == response::html_answer(
                status::OK,
                "<div id=\"server-list\" hx-swap-oob=\"innerHTML\">"@ + markup@ + "</div>"@,
            )
        },
        (AddAdminStep::RenderList, AddAdminEvent::Rendered(Err(error))) => {
            next matches AddAdminStep::Answer(answer) && answer@ == response::text_answer(
                status::INTERNAL_SERVER_ERROR,
                error@,
            )
        },
        (step, _) => next == step,
    }
}

/// Goes on with giving a server an administrator.
pub fn add_server_admin(step: AddAdminStep, event: AddAdminEvent) -> (r: AddAdminStep)
    ensures
        admin_step_follows(step, event, r),
{
    match (step, event) {
        (AddAdminStep::GetServer { form }, AddAdminEvent::Server(found)) => match found {
            Some(found) => if found {
                AddAdminStep::CreateClient { form }
            } else {
                AddAdminStep::Answer(response::error_box(status::NOT_FOUND, "Server not found"))
            },
            None => AddAdminStep::Answer(
                response::error_box(status::INTERNAL_SERVER_ERROR, "Database error"),
            ),
        },
        (AddAdminStep::CreateClient { form }, AddAdminEvent::Client(created)) => if created {
            AddAdminStep::Authenticate { form }
        } else {
            AddAdminStep::Answer(
                response::error_box(status::INTERNAL_SERVER_ERROR, "Client error"),
            )
        },
        (AddAdminStep::Authenticate { form }, AddAdminEvent::Login(outcome)) => match outcome {
            LoginOutcome::Accepted { is_administrator } => {
                let is_admin = match is_administrator {
                    Some(is_admin) => is_admin,
                    None => false,
                };
                if is_admin {
                    AddAdminStep::Encrypt { form }
                } else {
                    AddAdminStep::Answer(
                        response::error_box(
                            status::OK,
                            "User is not an administrator on this server",
                        ),
                    )
                }
            },
            LoginOutcome::Refused => AddAdminStep::Answer(
                response::error_box(status::OK, "Invalid credentials"),
            ),
            LoginOutcome::Failed { message } => AddAdminStep::Answer(
                response::error_box(
                    status::OK,
                    "Connection error: ".to_owned().concat(message.as_str()).as_str(),
                ),
            ),
        },
        (AddAdminStep::Encrypt { form }, AddAdminEvent::Encrypted(encrypted)) => if encrypted {
            AddAdminStep::Save { username: form.username }
        } else {
            AddAdminStep::Answer(
                response::error_box(status::INTERNAL_SERVER_ERROR, "Encryption failed"),
            )
        },
        (AddAdminStep::Save { .. }, AddAdminEvent::Saved(saved)) => if saved {
            AddAdminStep::RenderList
        } else {
            AddAdminStep::Answer(
                response::error_box(status::INTERNAL_SERVER_ERROR, "Database error"),
            )
        },
        (AddAdminStep::RenderList, AddAdminEvent::Rendered(Ok(markup))) => AddAdminStep::Answer(
            response::html(
                status::OK,
                "<div id=\"server-list\" hx-swap-oob=\"innerHTML\">".to_owned().concat(
                    markup.as_str(),
                ).concat("</div>"),
            ),
        ),
        (AddAdminStep::RenderList, AddAdminEvent::Rendered(Err(error))) => AddAdminStep::Answer(
            response::plain(status::INTERNAL_SERVER_ERROR, error.as_str()),
        ),
        (step, _) => step,
    }
}

/// An administrator is stored only under the name with which the server has just accepted the
/// login of an administrator, and only with the password of that login.
pub proof fn law_only_administrators_are_stored(
    login: AddAdminStep,
    outcome: LoginOutcome,
    encrypt: AddAdminStep,
    encrypted: bool,
    save: AddAdminStep,
)
    requires
        login is Authenticate,
        admin_step_follows(login, AddAdminEvent::Login(outcome), encrypt),
        admin_step_follows(encrypt, AddAdminEvent::Encrypted(encrypted), save),
        save is Save,
    ensures
        outcome == (LoginOutcome::Accepted { is_administrator: Some(true) }),
        encrypt matches AddAdminStep::Encrypt { form } && login == (AddAdminStep::Authenticate {
            form,
        }) && save == (AddAdminStep::Save { username: form.username }),
{
}

/// How far the work is from its end.
pub open spec fn admin_steps_left(step: AddAdminStep) -> nat {
    match step {
        AddAdminStep::GetServer { .. } => 6,
        AddAdminStep::CreateClient { .. } => 5,
        AddAdminStep::Authenticate { .. } => 4,
        AddAdminStep::Encrypt { .. } => 3,
        AddAdminStep::Save { .. } => 2,
        AddAdminStep::RenderList => 1,
        AddAdminStep::Answer(_) => 0,
    }
}

/// Whether an event is an outcome of a step.
pub open spec fn admin_event_answers(step: AddAdminStep, event: AddAdminEvent) -> bool {
    match step {
        AddAdminStep::GetServer { .. } => event is Server,
        AddAdminStep::CreateClient { .. } => event is Client,
        AddAdminStep::Authenticate { .. } => event is Login,
        AddAdminStep::Encrypt { .. } => event is Encrypted,
        AddAdminStep::Save { .. } => event is Saved,
        AddAdminStep::RenderList => event is Rendered,
        AddAdminStep::Answer(_) => false,
    }
}

/// Each outcome brings the work nearer to its end.
pub proof fn law_adding_an_administrator_ends(
    step: AddAdminStep,
    event: AddAdminEvent,
    next: AddAdminStep,
)
    requires
        admin_event_answers(step, event),
        admin_step_follows(step, event, next),
    ensures
        admin_steps_left(next) < admin_steps_left(step),
{
}

/// A form that passes the check holds a name and an address that are neither empty nor have white
/// space around them, and a priority in bounds.
pub proof fn law_checked_servers_are_sane(form: AddServerForm, mode: Option<MediaStreamingMode>)
    requires
        add_server_complaint(form, mode) is None,
    ensures
        entered(form.name@).len() > 0,
        entered(form.url@).len() > 0,
        entered(entered(form.name@)) == entered(form.name@),
        entered(entered(form.url@)) == entered(form.url@),
        1 <= form.priority <= 999,
        mode is Some,
{
    text::lemma_trimmed_twice(form.name@, text::CharClass::WhiteSpace);
    text::lemma_trimmed_twice(form.url@, text::CharClass::WhiteSpace);
}

/// Whether a text holds anything but white space.
pub open spec fn has_more_than_white_space(text: Seq<char>) -> bool {
    exists|i: int| 0 <= i < text.len() && !text::is_white_space(#[trigger] text[i])
}

proof fn lemma_entered(text: Seq<char>)
    ensures
        entered(text).len() > 0 <==> has_more_than_white_space(text),
{
    let (lo, hi) = text::law_only_the_ends_are_cut(text, text::CharClass::WhiteSpace);
    if lo < hi {
        assert(!text::is_white_space(text[lo]));
    } else {
        assert forall|i: int| 0 <= i < text.len() implies text::is_white_space(
            #[trigger] text[i],
        ) by {
            assert(text::CharClass::WhiteSpace.has(text[i]));
        }
    }
}

/// A server may be added exactly where its name and its address hold more than white space, its
/// priority is from 1 to 999 and its mode can be read; it then has what was entered. Otherwise the
/// answer is a bad request that tells the first of these that is missing.
pub proof fn law_servers_are_checked_before_they_are_added(
    form: AddServerForm,
    mode: Option<MediaStreamingMode>,
    checked: Result<ServerToAdd, UiResponse>,
)
    requires
        is_checked(form, mode, checked),
    ensures
        checked is Ok <==> has_more_than_white_space(form.name@) && has_more_than_white_space(
            form.url@,
        ) && 1 <= form.priority <= 999 && mode is Some,
        checked matches Ok(server) ==> {
            &&& server.name@ == text::trimmed(form.name@, text::CharClass::WhiteSpace)
            &&& server.url@ == text::trimmed(form.url@, text::CharClass::WhiteSpace)
            &&& server.priority == form.priority
            &&& Some(server.media_streaming_mode) == mode
        },
        checked matches Err(answer) ==> {
            &&& answer.status == 400
            &&& answer.hx_redirect is None
            &&& response::tells(
                answer@,
                if !has_more_than_white_space(form.name@) {
                    "Server name cannot be empty"@
                } else if !has_more_than_white_space(form.url@) {
                    "Server URL cannot be empty"@
                } else if form.priority < 1 || form.priority > 999 {
                    "Priority must be between 1 and 999"@
                } else {
                    "Invalid streaming mode"@
                },
            )
        },
{
    lemma_entered(form.name@);
    lemma_entered(form.url@);
    if let Some(complaint) = add_server_complaint(form, mode) {
        response::law_answers_tell_what_they_should(400, complaint);
    }
}

/// A priority is taken as it was entered where it is from 1 to 999, and refused otherwise.
pub proof fn law_priorities_are_in_bounds(
    form: UpdatePriorityForm,
    checked: Result<i32, UiResponse>,
)
    requires
        is_checked_priority(form, checked),
    ensures
        1 <= form.priority <= 999 ==> checked == Ok::<i32, UiResponse>(form.priority),
        form.priority < 1 || form.priority > 999 ==> (checked matches Err(answer) && answer.status
            == 400 && response::tells(answer@, "Priority must be between 1 and 999"@)),
{
    response::law_answers_tell_what_they_should(400, "Priority must be between 1 and 999"@);
}

/// A change to a server that is not there is answered as not found, one that failed as an internal
/// server error, and one that succeeded with the list of servers.
pub proof fn law_changes_are_answered(
    outcome: ChangeOutcome,
    not_found: Seq<char>,
    failed: Seq<char>,
)
    ensures
        change_answer(outcome, not_found, failed) is None <==> outcome == ChangeOutcome::Changed,
        outcome == ChangeOutcome::NotFound ==> (change_answer(
            outcome,
            not_found,
            failed,
        ) matches Some(answer) && answer.status == 404 && response::tells(answer, not_found)),
        outcome == ChangeOutcome::Failed ==> (change_answer(
            outcome,
            not_found,
            failed,
        ) matches Some(answer) && answer.status == 500 && response::tells(answer, failed)),
{
    response::law_answers_tell_what_they_should(404, not_found);
    response::law_answers_tell_what_they_should(500, failed);
}

/// With a server that was deleted exactly the playback sessions on it go, the others stay in their
/// order, and where nothing was deleted all stay. What is known of the health of the server goes
/// unless the deletion failed, and what is known of other servers stays.
pub proof fn law_deleted_servers_leave_nothing_behind(
    server_id: ServerId,
    outcome: ChangeOutcome,
    health: Map<i64, ServerHealthStatus>,
    health_after: Map<i64, ServerHealthStatus>,
    sessions: Seq<TrackedPlaybackSession>,
    sessions_after: Seq<TrackedPlaybackSession>,
)
    requires
        is_deleted(server_id, outcome, health, health_after, sessions, sessions_after),
    ensures
        outcome == ChangeOutcome::Changed ==> picking::are_picked(
            sessions,
            sessions_after,
            |entry: TrackedPlaybackSession| entry.session.server_id != server_id,
        ),
        outcome != ChangeOutcome::Changed ==> sessions_after == sessions,
        outcome == ChangeOutcome::Failed ==> health_after == health,
        outcome != ChangeOutcome::Failed ==> !health_after.contains_key(server_id.0),
        forall|other: i64|
            other != server_id.0 ==> {
                &&& (#[trigger] health_after.contains_key(other)) == health.contains_key(other)
                &&& health.contains_key(other) ==> health_after[other] == health[other]
            },
{
    session_storage::law_only_what_is_removed_leaves(sessions, "", server_id);
}

/// A server is listed with whether it has an administrator, and as one that has its media delivered
/// in exactly one of the two ways: the one that its mode says.
pub proof fn law_listed_servers_show_their_mode(server: Server, has_admin: bool)
    ensures
        list_entry(server, has_admin).server == server,
        list_entry(server, has_admin).has_admin == has_admin,
        server.media_streaming_mode == MediaStreamingMode::Redirect ==> list_entry(
            server,
            has_admin,
        ).is_redirect && !list_entry(server, has_admin).is_proxy,
        server.media_streaming_mode == MediaStreamingMode::Proxy ==> list_entry(
            server,
            has_admin,
        ).is_proxy && !list_entry(server, has_admin).is_redirect,
{
}

/// A list that could be rendered is answered as it is, one that could not as an internal server
/// error.
pub proof fn law_lists_are_answered(rendered: Option<Seq<char>>)
    ensures
        rendered matches Some(markup) ==> list_answer(rendered).status == 200 && list_answer(
            rendered,
        ).body == response::UiBodyView::Html(markup),
        rendered is None ==> list_answer(rendered).status == 500 && list_answer(rendered).body
            == response::UiBodyView::Text("Error"@),
{
}

/// A refusal of the store is told to be about the address where the constraint or the message names
/// it, else about the name where the message names that or any unique value; an address that is
/// invalid is told to be so, and nothing else is told of other failures.
pub proof fn law_refusals_are_told_apart(
    constraint: Option<String>,
    message: String,
)
    ensures
        ({
            let said = failure_text(AddServerFailure::Database { constraint, message });
            let by_constraint = constraint matches Some(name) && name@ == "idx_servers_url_unique"@;
            let by_url = by_constraint || text::has_text(message@, "idx_servers_url_unique"@)
                || text::has_text(message@, "servers.url"@);
            let by_name = text::has_text(message@, "servers.name"@) || text::has_text(
                message@,
                "UNIQUE constraint failed"@,
            );
            &&& by_url ==> said == "A server with that URL already exists"@
            &&& !by_url && by_name ==> said == "A server with that name already exists"@
            &&& !by_url && !by_name ==> said == "Failed to add server"@
        }),
        failure_text(AddServerFailure::InvalidUrl) == "Invalid URL format"@,
        text::has_text(message@, "Invalid URL"@) ==> failure_text(
            AddServerFailure::Other { message },
        ) == "Invalid URL format"@,
        !text::has_text(message@, "Invalid URL"@) ==> failure_text(
            AddServerFailure::Other { message },
        ) == "Failed to add server"@,
{
}

/// A login of an administrator leads through all steps to the list of servers, with what was
/// entered.
pub proof fn law_administrators_are_added(
    step: AddAdminStep,
    event: AddAdminEvent,
    next: AddAdminStep,
)
    requires
        admin_step_follows(step, event, next),
    ensures
        step matches AddAdminStep::GetServer { form } ==> (event == AddAdminEvent::Server(
            Some(true),
        ) ==> next == (AddAdminStep::CreateClient { form })),
        step matches AddAdminStep::CreateClient { form } ==> (event == AddAdminEvent::Client(true)
            ==> next == (AddAdminStep::Authenticate { form })),
        step matches AddAdminStep::Authenticate { form } ==> (event == AddAdminEvent::Login(
            LoginOutcome::Accepted { is_administrator: Some(true) },
        ) ==> next == (AddAdminStep::Encrypt { form })),
        step matches AddAdminStep::Encrypt { form } ==> (event == AddAdminEvent::Encrypted(true)
            ==> next == (AddAdminStep::Save { username: form.username })),
        step is Save && event == AddAdminEvent::Saved(true) ==> next == AddAdminStep::RenderList,
        step is RenderList ==> (event matches AddAdminEvent::Rendered(Ok(markup)) ==> (
        next matches AddAdminStep::Answer(answer) && answer.status == 200 && response::tells(
            answer@,
            markup@,
        ))),
{
    if let AddAdminEvent::Rendered(Ok(markup)) = event {
        let head = "<div id=\"server-list\" hx-swap-oob=\"innerHTML\">"@;
        assert(response::stands_in(markup@, head + markup@ + "</div>"@));
    }
}

/// Whatever fails on the way ends the work with an answer that tells it, and nothing is stored.
pub proof fn law_failures_end_adding_an_administrator(
    step: AddAdminStep,
    event: AddAdminEvent,
    next: AddAdminStep,
)
    requires
        admin_step_follows(step, event, next),
    ensures
        step is GetServer && event == AddAdminEvent::Server(Some(false)) ==> is_told(
            next,
            404,
            "Server not found"@,
        ),
        step is GetServer && event == AddAdminEvent::Server(None) ==> is_told(
            next,
            500,
            "Database error"@,
        ),
        step is CreateClient && event == AddAdminEvent::Client(false) ==> is_told(
            next,
            500,
            "Client error"@,
        ),
        step is Authenticate && (event == AddAdminEvent::Login(
            LoginOutcome::Accepted { is_administrator: Some(false) },
        ) || event == AddAdminEvent::Login(LoginOutcome::Accepted { is_administrator: None }))
            ==> is_told(next, 200, "User is not an administrator on this server"@),
        step is Authenticate && event == AddAdminEvent::Login(LoginOutcome::Refused) ==> is_told(
            next,
            200,
            "Invalid credentials"@,
        ),
        step is Authenticate ==> (event matches AddAdminEvent::Login(
            LoginOutcome::Failed { message },
        ) ==> is_told(next, 200, "Connection error: "@ + message@)),
        step is Encrypt && event == AddAdminEvent::Encrypted(false) ==> is_told(
            next,
            500,
            "Encryption failed"@,
        ),
        step is Save && event == AddAdminEvent::Saved(false) ==> is_told(
            next,
            500,
            "Database error"@,
        ),
        step is RenderList ==> (event matches AddAdminEvent::Rendered(Err(error)) ==> is_told(
            next,
            500,
            error@,
        )),
{
    response::law_answers_tell_what_they_should(404, "Server not found"@);
    response::law_answers_tell_what_they_should(500, "Database error"@);
    response::law_answers_tell_what_they_should(500, "Client error"@);
    response::law_answers_tell_what_they_should(
        200,
        "User is not an administrator on this server"@,
    );
    response::law_answers_tell_what_they_should(200, "Invalid credentials"@);
    response::law_answers_tell_what_they_should(500, "Encryption failed"@);
    if let AddAdminEvent::Login(LoginOutcome::Failed { message }) = event {
        response::law_answers_tell_what_they_should(200, "Connection error: "@ + message@);
    }
    if let AddAdminEvent::Rendered(Err(error)) = event {
        response::law_answers_tell_what_they_should(500, error@);
    }
}

/// Whether a step is to answer with a status and a message.
pub open spec fn is_told(step: AddAdminStep, code: u16, message: Seq<char>) -> bool {
    step matches AddAdminStep::Answer(answer) && answer.status == code && response::tells(
        answer@,
        message,
    )
}

/// What is no outcome of a step leaves it as it is.
pub proof fn law_other_events_leave_adding_alone(
    step: AddAdminStep,
    event: AddAdminEvent,
    next: AddAdminStep,
)
    requires
        admin_step_follows(step, event, next),
        !(step is GetServer && event is Server),
        !(step is CreateClient && event is Client),
        !(step is Authenticate && event is Login),
        !(step is Encrypt && event is Encrypted),
        !(step is Save && event is Saved),
        !(step is RenderList && event is Rendered),
    ensures
        next == step,
{
}

} // verus!
