use jellyswarrm::server_id::ServerId;
use jellyswarrm::server_storage::{
    MediaStreamingMode, PublicSystemInfo, Server, ServerHealthStatus, ServerStorageService,
};
use jellyswarrm::server_url::ServerUrl;
use jellyswarrm::session_storage::{PlaybackSession, SessionStorage};
use jellyswarrm::time::Timestamp;
use jellyswarrm::ui::admin::servers as admin;
use jellyswarrm::ui::admin::servers::{
    AddAdminEvent, AddAdminStep, AddServerAdminForm, AddServerFailure, AddServerForm,
    ChangeOutcome, LoginOutcome, UpdatePriorityForm,
};
use jellyswarrm::ui::response::{UiBody, UiResponse};
use jellyswarrm::ui::user::media::{
    self, ImageEvent, ImageStep, ItemsEvent, ItemsStep, LibrariesEvent, LibrariesStep, MediaFolder,
    Pagination,
};
use jellyswarrm::ui::user::servers::{
    self, ConnectEvent, ConnectServerForm, ConnectStep, DisconnectEvent, DisconnectStep,
    ServerGreeting, StatusEvent, StatusStep, UserMapping,
};

fn server(id: i64, mode: MediaStreamingMode) -> Server {
    Server {
        id: ServerId::new(id),
        name: format!("server-{id}"),
        url: ServerUrl::parse("http://localhost:8096").unwrap(),
        priority: 100,
        media_streaming_mode: mode,
        created_at: Timestamp::from_parts(0, 0),
        updated_at: Timestamp::from_parts(0, 0),
    }
}

fn html(answer: &UiResponse) -> (u16, String) {
    match &answer.body {
        UiBody::Html(text) => (answer.status, text.clone()),
        _ => panic!("no markup"),
    }
}

fn plain(answer: &UiResponse) -> (u16, String) {
    match &answer.body {
        UiBody::Text(text) => (answer.status, text.clone()),
        _ => panic!("no text"),
    }
}

fn empty(answer: &UiResponse) -> u16 {
    assert!(matches!(answer.body, UiBody::Empty));
    answer.status
}

fn alert(code: u16, message: &str) -> (u16, String) {
    (code, format!("<div class=\"alert alert-error\">{message}</div>"))
}

fn boxed(code: u16, message: &str) -> (u16, String) {
    (
        code,
        format!("<div style=\"background-color: #e74c3c; color: white; padding: 0.75rem; border-radius: 0.25rem; margin-bottom: 1rem;\">{message}</div>"),
    )
}

fn span(code: u16, message: &str) -> (u16, String) {
    (code, format!("<span style=\"color: #dc3545;\">{message}</span>"))
}

fn form(name: &str, url: &str, priority: i32) -> AddServerForm {
    AddServerForm {
        name: name.to_string(),
        url: url.to_string(),
        priority,
        media_streaming_mode: "proxy".to_string(),
    }
}

#[test]
fn new_servers_are_checked() {
    let mode = Some(MediaStreamingMode::Proxy);
    let added = admin::add_server(&form(" a \t", "\u{a0}http://b\n", 999), mode).ok().unwrap();
    assert_eq!((added.name.as_str(), added.url.as_str()), ("a", "http://b"));
    assert_eq!((added.priority, added.media_streaming_mode), (999, MediaStreamingMode::Proxy));
    let refused = |form: AddServerForm, mode| {
        html(&admin::add_server(&form, mode).err().unwrap())
    };
    assert_eq!(refused(form("  ", "", 0), None), alert(400, "Server name cannot be empty"));
    assert_eq!(refused(form("a", " ", 0), None), alert(400, "Server URL cannot be empty"));
    for priority in [0, -1, 1000] {
        let complaint = alert(400, "Priority must be between 1 and 999");
        assert_eq!(refused(form("a", "b", priority), None), complaint);
        let update = UpdatePriorityForm { priority };
        assert_eq!(html(&admin::check_priority(&update).err().unwrap()), complaint);
    }
    assert_eq!(refused(form("a", "b", 1), None), alert(400, "Invalid streaming mode"));
    assert_eq!(admin::check_priority(&UpdatePriorityForm { priority: 1 }).ok(), Some(1));
    assert_eq!(admin::check_media_streaming_mode(mode).ok(), mode);
    let refused = admin::check_media_streaming_mode(None).err().unwrap();
    assert_eq!(html(&refused), alert(400, "Invalid streaming mode"));
}

#[test]
fn servers_that_cannot_be_stored_are_explained() {
    let says = |failure: AddServerFailure| html(&admin::add_server_failed(&failure)).1;
    let database = |constraint: Option<&str>, message: &str| AddServerFailure::Database {
        constraint: constraint.map(|text| text.to_string()),
        message: message.to_string(),
    };
    let text = |message: &str| alert(400, message).1;
    let url = text("A server with that URL already exists");
    assert_eq!(says(database(Some("idx_servers_url_unique"), "")), url);
    assert_eq!(says(database(None, "... idx_servers_url_unique")), url);
    assert_eq!(says(database(None, "UNIQUE constraint failed: servers.url")), url);
    let name = text("A server with that name already exists");
    assert_eq!(says(database(None, "UNIQUE constraint failed: servers.name")), name);
    assert_eq!(says(database(Some("x"), "UNIQUE constraint failed")), name);
    let failed = text("Failed to add server");
    assert_eq!(says(database(None, "disk full")), failed);
    assert_eq!(says(AddServerFailure::InvalidUrl), text("Invalid URL format"));
    let other = |message: &str| AddServerFailure::Other { message: message.to_string() };
    assert_eq!(says(other("an Invalid URL came")), text("Invalid URL format"));
    assert_eq!(says(other("closed")), failed);
}

#[test]
fn changes_are_answered_unless_they_succeed() {
    let changed = ChangeOutcome::Changed;
    assert!(admin::update_server_media_streaming_mode(changed).is_none());
    let answer = |answer: Option<UiResponse>| html(&answer.unwrap());
    let lost = ChangeOutcome::NotFound;
    let failed = ChangeOutcome::Failed;
    assert_eq!(
        answer(admin::update_server_media_streaming_mode(lost)),
        alert(404, "Server not found")
    );
    assert_eq!(
        answer(admin::update_server_media_streaming_mode(failed)),
        alert(500, "Failed to update streaming mode")
    );
    assert_eq!(answer(admin::update_server_priority(lost)), alert(404, "Server not found"));
    assert_eq!(
        answer(admin::update_server_priority(failed)),
        alert(500, "Failed to update priority")
    );
    assert_eq!(answer(admin::delete_server_admin(lost)), alert(404, "Admin not found"));
    assert_eq!(
        answer(admin::delete_server_admin(failed)),
        alert(500, "Failed to delete admin")
    );
}

#[test]
fn with_a_server_its_sessions_go() {
    let mut known = ServerStorageService::new();
    known.check_servers_health(vec![(
        ServerId::new(1),
        ServerHealthStatus::Healthy(PublicSystemInfo { version: None }),
    )]);
    let mut sessions = SessionStorage::new();
    let session = PlaybackSession {
        session_id: "s".to_string(),
        item_id: "i".to_string(),
        user_id: "u".to_string(),
        server_id: ServerId::new(1),
    };
    sessions.add_session(session, 0);
    let id = ServerId::new(1);
    let answer = admin::delete_server(id, ChangeOutcome::Failed, &mut known, &mut sessions);
    assert_eq!(html(&answer.unwrap()), alert(500, "Failed to delete server"));
    assert!(known.server_status(id).is_healthy());
    let answer = admin::delete_server(id, ChangeOutcome::NotFound, &mut known, &mut sessions);
    assert_eq!(html(&answer.unwrap()), alert(404, "Server not found"));
    assert!(!known.server_status(id).is_healthy());
    assert!(sessions.get_session("s", 0).is_some());
    assert!(admin::delete_server(id, ChangeOutcome::Changed, &mut known, &mut sessions).is_none());
    assert!(sessions.get_session("s", 0).is_none());
}

#[test]
fn the_list_of_servers_tells_how_they_deliver() {
    let list = admin::render_server_list(
        vec![
            (server(1, MediaStreamingMode::Redirect), true),
            (server(2, MediaStreamingMode::Proxy), false),
        ],
        "ui".to_string(),
    );
    assert_eq!(list.ui_route, "ui");
    let first = &list.servers[0];
    assert!(first.has_admin && first.is_redirect && !first.is_proxy);
    let second = &list.servers[1];
    assert!(!second.has_admin && !second.is_redirect && second.is_proxy);
    assert_eq!(second.server.name, "server-2");
    assert_eq!(html(&admin::get_server_list(Some("x".to_string()))), (200, "x".to_string()));
    assert_eq!(plain(&admin::get_server_list(None)), (500, "Error".to_string()));
    assert_eq!(admin::servers_page("ui".to_string()).ui_route, "ui");
}

fn admin_form() -> AddServerAdminForm {
    AddServerAdminForm { username: "root".to_string(), password: "secret".to_string() }
}

fn admin_answer(step: AddAdminStep, event: AddAdminEvent) -> UiResponse {
    match admin::add_server_admin(step, event) {
        AddAdminStep::Answer(answer) => answer,
        _ => panic!("no answer"),
    }
}

#[test]
fn an_administrator_is_stored_after_a_login() {
    let mut step = AddAdminStep::GetServer { form: admin_form() };
    step = admin::add_server_admin(step, AddAdminEvent::Server(Some(true)));
    step = admin::add_server_admin(step, AddAdminEvent::Client(true));
    assert!(matches!(&step, AddAdminStep::Authenticate { form } if form.password == "secret"));
    let login = LoginOutcome::Accepted { is_administrator: Some(true) };
    step = admin::add_server_admin(step, AddAdminEvent::Login(login));
    step = admin::add_server_admin(step, AddAdminEvent::Encrypted(true));
    assert!(matches!(&step, AddAdminStep::Save { username } if username == "root"));
    step = admin::add_server_admin(step, AddAdminEvent::Saved(true));
    let answer = admin_answer(step, AddAdminEvent::Rendered(Ok("list".to_string())));
    assert_eq!(
        html(&answer),
        (200, "<div id=\"server-list\" hx-swap-oob=\"innerHTML\">list</div>".to_string())
    );
}

#[test]
fn an_administrator_is_refused_with_a_reason() {
    let form = admin_form;
    let answer = |step, event| html(&admin_answer(step, event));
    let get = || AddAdminStep::GetServer { form: form() };
    assert_eq!(answer(get(), AddAdminEvent::Server(Some(false))), boxed(404, "Server not found"));
    assert_eq!(answer(get(), AddAdminEvent::Server(None)), boxed(500, "Database error"));
    let create = AddAdminStep::CreateClient { form: form() };
    assert_eq!(answer(create, AddAdminEvent::Client(false)), boxed(500, "Client error"));
    let login = |outcome| {
        answer(AddAdminStep::Authenticate { form: form() }, AddAdminEvent::Login(outcome))
    };
    let refused = boxed(200, "User is not an administrator on this server");
    assert_eq!(login(LoginOutcome::Accepted { is_administrator: None }), refused);
    assert_eq!(login(LoginOutcome::Accepted { is_administrator: Some(false) }), refused);
    assert_eq!(login(LoginOutcome::Refused), boxed(200, "Invalid credentials"));
    let failed = LoginOutcome::Failed { message: "timeout".to_string() };
    assert_eq!(login(failed), boxed(200, "Connection error: timeout"));
    let encrypt = AddAdminStep::Encrypt { form: form() };
    assert_eq!(answer(encrypt, AddAdminEvent::Encrypted(false)), boxed(500, "Encryption failed"));
    let save = AddAdminStep::Save { username: "root".to_string() };
    assert_eq!(answer(save, AddAdminEvent::Saved(false)), boxed(500, "Database error"));
    let rendered = AddAdminEvent::Rendered(Err("broken".to_string()));
    let answer = admin_answer(AddAdminStep::RenderList, rendered);
    assert_eq!(plain(&answer), (500, "broken".to_string()));
}

#[test]
fn servers_are_shown_as_connected_or_not() {
    let mode = MediaStreamingMode::Proxy;
    let list = servers::get_user_servers(
        "bob".to_string(),
        Some(vec![server(2, mode)]),
        Some(vec![server(1, mode), server(2, mode), server(3, mode)]),
        "ui".to_string(),
    )
    .ok()
    .unwrap();
    let left: Vec<i64> = list.unmapped_servers.iter().map(|s| s.id.as_i64()).collect();
    assert_eq!(left, vec![1, 3]);
    assert_eq!((list.username.as_str(), list.servers.len()), ("bob", 1));
    for (mapped, all) in [(None, Some(Vec::new())), (Some(Vec::new()), None)] {
        let refused =
            servers::get_user_servers(String::new(), mapped, all, String::new()).err().unwrap();
        assert_eq!(plain(&refused), (500, "Database error".to_string()));
    }
}

fn connect_form() -> ConnectServerForm {
    ConnectServerForm { username: "bob".to_string(), password: "secret".to_string() }
}

fn connect_answer(step: ConnectStep, event: ConnectEvent) -> UiResponse {
    match servers::connect_server(step, event, "ui") {
        ConnectStep::Answer(answer) => answer,
        _ => panic!("no answer"),
    }
}

#[test]
fn a_user_connects_with_an_accepted_login() {
    let mut step = ConnectStep::GetServer { form: connect_form() };
    step = servers::connect_server(step, ConnectEvent::Server(Some(true)), "ui");
    step = servers::connect_server(step, ConnectEvent::Client(true), "ui");
    let login = LoginOutcome::Accepted { is_administrator: None };
    step = servers::connect_server(step, ConnectEvent::Login(login), "ui");
    assert!(matches!(&step, ConnectStep::AddMapping { form } if form.username == "bob"));
    let answer = connect_answer(step, ConnectEvent::Mapped(true));
    assert_eq!(answer.hx_redirect.as_deref(), Some("/ui"));
    assert_eq!(empty(&answer), 200);
}

#[test]
fn a_user_is_told_why_a_server_is_not_connected() {
    let answer = |step, event| html(&connect_answer(step, event));
    let get = || ConnectStep::GetServer { form: connect_form() };
    assert_eq!(answer(get(), ConnectEvent::Server(Some(false))), span(404, "Server not found"));
    assert_eq!(answer(get(), ConnectEvent::Server(None)), span(500, "Database error"));
    let create = ConnectStep::CreateClient { form: connect_form() };
    assert_eq!(answer(create, ConnectEvent::Client(false)), span(500, "Client error"));
    let login = |outcome| {
        answer(ConnectStep::Authenticate { form: connect_form() }, ConnectEvent::Login(outcome))
    };
    assert_eq!(login(LoginOutcome::Refused), boxed(200, "Invalid credentials"));
    let failed = LoginOutcome::Failed { message: "timeout".to_string() };
    assert_eq!(login(failed), boxed(200, "Connection error: timeout"));
    let map = ConnectStep::AddMapping { form: connect_form() };
    assert_eq!(answer(map, ConnectEvent::Mapped(false)), boxed(200, "Database error"));
}

#[test]
fn a_user_is_disconnected_from_one_server() {
    let next = |step, event| servers::delete_server_mapping(step, event, "ui");
    let answer = |step, event| match next(step, event) {
        DisconnectStep::Answer(answer) => answer,
        _ => panic!("no answer"),
    };
    let found = DisconnectEvent::Server(Some(Some(ServerId::new(2))));
    let step = next(DisconnectStep::GetServer, found);
    let mappings = vec![
        UserMapping { id: 10, server_id: ServerId::new(1) },
        UserMapping { id: 11, server_id: ServerId::new(2) },
        UserMapping { id: 12, server_id: ServerId::new(2) },
    ];
    let step = next(step, DisconnectEvent::Mappings(Some(mappings)));
    assert!(matches!(step, DisconnectStep::DeleteMapping { mapping_id: 11 }));
    let done = answer(step, DisconnectEvent::Deleted(true));
    assert_eq!(done.hx_redirect.as_deref(), Some("/ui"));
    let gone = DisconnectEvent::Server(Some(None));
    assert_eq!(empty(&answer(DisconnectStep::GetServer, gone)), 404);
    assert_eq!(empty(&answer(DisconnectStep::GetServer, DisconnectEvent::Server(None))), 500);
    let list = || DisconnectStep::ListMappings { server_id: ServerId::new(9) };
    assert_eq!(empty(&answer(list(), DisconnectEvent::Mappings(Some(Vec::new())))), 404);
    assert_eq!(empty(&answer(list(), DisconnectEvent::Mappings(None))), 500);
    let delete = DisconnectStep::DeleteMapping { mapping_id: 1 };
    assert_eq!(empty(&answer(delete, DisconnectEvent::Deleted(false))), 500);
}

#[test]
fn the_status_of_a_server_is_shown() {
    let next = servers::check_user_server_status;
    let answer = |step, event| match next(step, event) {
        StatusStep::Answer(answer) => html(&answer),
        _ => panic!("no answer"),
    };
    let step = next(StatusStep::GetServer, StatusEvent::Server(Some(true)));
    let greeting = ServerGreeting { name: "bob".to_string(), version: None };
    let step = next(step, StatusEvent::Login(Ok(greeting)));
    match &step {
        StatusStep::Render { shown } => {
            assert_eq!(shown.username.as_deref(), Some("bob"));
            assert_eq!(shown.error_message, None);
            assert_eq!(shown.server_version, "unknown");
        }
        _ => panic!("nothing is shown"),
    }
    let page = StatusEvent::Rendered(Some("page".to_string()));
    assert_eq!(answer(step, page), (200, "page".to_string()));
    let get = || StatusStep::GetServer;
    assert_eq!(answer(get(), StatusEvent::Server(Some(false))), span(404, "Server not found"));
    assert_eq!(answer(get(), StatusEvent::Server(None)), span(500, "Database error"));
    let refused = StatusEvent::Login(Err("no account".to_string()));
    assert_eq!(answer(StatusStep::Authenticate, refused), span(200, "no account"));
    let greeting = ServerGreeting { name: "b".to_string(), version: Some("1".to_string()) };
    let step = next(StatusStep::Authenticate, StatusEvent::Login(Ok(greeting)));
    assert!(matches!(&step, StatusStep::Render { shown } if shown.server_version == "1"));
    assert_eq!(answer(step, StatusEvent::Rendered(None)), span(500, "Template error"));
}

#[test]
fn the_servers_of_a_user_are_listed() {
    let shown = media::get_user_media(
        Some(vec![server(3, MediaStreamingMode::Proxy)]),
        "ui".to_string(),
    )
    .ok()
    .unwrap();
    assert_eq!(shown.servers[0].id, ServerId::new(3));
    assert_eq!(shown.servers[0].name, "server-3");
    let refused = media::get_user_media(None, String::new()).err().unwrap();
    assert_eq!(plain(&refused), (500, "Database error".to_string()));
}

fn folder(id: &str, name: &str, kind: Option<&str>) -> MediaFolder {
    MediaFolder {
        id: id.to_string(),
        name: name.to_string(),
        collection_type: kind.map(|kind| kind.to_string()),
    }
}

#[test]
fn all_libraries_but_playlists_are_shown() {
    let next = |step, event| media::get_server_libraries(step, event, ServerId::new(5), "ui");
    let step = next(LibrariesStep::GetServer, LibrariesEvent::Server(true));
    let step = next(step, LibrariesEvent::Login(true));
    let folders = vec![
        folder("1", "PlayLists", None),
        folder("2", "Movies", Some("movies")),
        folder("3", "Lists", Some("playlists")),
        folder("4", "Shows", None),
        folder("5", "PLAYLISTS", Some("movies")),
    ];
    let step = next(step, LibrariesEvent::Folders(Some(folders)));
    assert!(matches!(&step, LibrariesStep::CountItems { at: 1, .. }));
    let step = next(step, LibrariesEvent::Counted(Some(42)));
    assert!(matches!(&step, LibrariesStep::CountItems { at: 3, .. }));
    let step = next(step, LibrariesEvent::Counted(None));
    match &step {
        LibrariesStep::Render { shown } => {
            let libraries: Vec<(&str, i32)> = shown
                .libraries
                .iter()
                .map(|library| (library.name.as_str(), library.count))
                .collect();
            assert_eq!(libraries, vec![("Movies", 42), ("Shows", 0)]);
            assert_eq!(shown.server_id, ServerId::new(5));
        }
        _ => panic!("nothing is shown"),
    }
    match next(step, LibrariesEvent::Rendered(None)) {
        LibrariesStep::Answer(answer) => {
            assert_eq!(plain(&answer), (500, "Template error".to_string()));
        }
        _ => panic!("no answer"),
    }
    assert!(media::is_playlists(Some("playlists"), "x"));
    assert!(media::is_playlists(None, "playlists"));
    assert!(!media::is_playlists(Some("Playlists"), "Playlists"));
}

#[test]
fn libraries_that_cannot_be_had_have_a_status() {
    let answer = |step, event| {
        match media::get_server_libraries(step, event, ServerId::new(5), "ui") {
            LibrariesStep::Answer(answer) => answer,
            _ => panic!("no answer"),
        }
    };
    assert_eq!(empty(&answer(LibrariesStep::GetServer, LibrariesEvent::Server(false))), 404);
    let login = answer(LibrariesStep::Authenticate, LibrariesEvent::Login(false));
    assert_eq!(plain(&login), (401, "Failed to authenticate".to_string()));
    let folders = answer(LibrariesStep::ListFolders, LibrariesEvent::Folders(None));
    assert_eq!(plain(&folders), (502, "Failed to fetch libraries".to_string()));
}

#[test]
fn items_are_shown_by_pages() {
    let page = |page| Pagination { page };
    assert_eq!(media::start_index(&page(None)), Some(0));
    assert_eq!(media::start_index(&page(Some(3))), Some(60));
    assert_eq!(media::start_index(&page(Some(i32::MAX))), None);
    assert_eq!(media::start_index(&page(Some(-1))), Some(-20));
    assert_eq!(media::next_page(&page(None), 20), None);
    assert_eq!(media::next_page(&page(None), 21), Some(1));
    assert_eq!(media::next_page(&page(Some(1)), 40), None);
    assert_eq!(media::next_page(&page(Some(1)), 41), Some(2));
    assert_eq!(media::next_page(&page(None), 0), None);
    assert_eq!(media::next_page(&page(Some(-3)), -25), Some(-2));
    assert_eq!(media::next_page(&page(Some(-2)), -25), None);
}

#[test]
fn the_items_of_a_page_are_fetched_and_shown() {
    let pagination = Pagination { page: Some(2) };
    let id = ServerId::new(5);
    let next = |step, event| media::get_library_items(step, event, id, "lib", &pagination, "ui");
    let step = next(ItemsStep::GetServer, ItemsEvent::Server(true));
    let step = next(step, ItemsEvent::Login(true));
    assert!(matches!(&step, ItemsStep::FetchItems { limit: 20, start_index: 40 }));
    let items = ItemsEvent::Items { items: vec!["x"], total_record_count: 61 };
    let step = next(step, items);
    match &step {
        ItemsStep::Render { shown } => {
            assert_eq!(shown.next_page, Some(3));
            assert_eq!((shown.library_id.as_str(), shown.items.len()), ("lib", 1));
        }
        _ => panic!("nothing is shown"),
    }
    let answer = |step, event| match next(step, event) {
        ItemsStep::Answer(answer) => answer,
        _ => panic!("no answer"),
    };
    let page = answer(step, ItemsEvent::Rendered(Some("page".to_string())));
    assert_eq!(html(&page), (200, "page".to_string()));
    assert_eq!(empty(&answer(ItemsStep::GetServer, ItemsEvent::Server(false))), 404);
    let login = answer(ItemsStep::Authenticate, ItemsEvent::Login(false));
    assert_eq!(plain(&login), (401, "Failed to authenticate".to_string()));
    let fetch = ItemsStep::FetchItems { limit: 20, start_index: 40 };
    let failed = answer(fetch, ItemsEvent::NoItems);
    assert_eq!(plain(&failed), (502, "Failed to fetch items".to_string()));
}

#[test]
fn images_are_passed_on() {
    let next = |step, event| media::proxy_media_image(step, event, "item", "1.2");
    let step = next(ImageStep::GetServer, ImageEvent::Server(Some("http://a//".to_string())));
    let step = next(step, ImageEvent::Login { accepted: true, token: Some("t".to_string()) });
    match &step {
        ImageStep::Fetch { url, authorization } => {
            assert_eq!(url, "http://a/Items/item/Images/Primary");
            assert_eq!(
                authorization,
                "MediaBrowser Client=\"Jellyswarrm Proxy\", Device=\"Server\", DeviceId=\"jellyswarrm-proxy\", Version=\"1.2\", Token=\"t\""
            );
        }
        _ => panic!("nothing is fetched"),
    }
    assert!(matches!(next(step, ImageEvent::Fetched(true)), ImageStep::Deliver));
    assert_eq!(media::IMAGE_CACHE_CONTROL, "public, max-age=3600");
    assert!(media::auth_header("1", None).ends_with("Token=\"\""));
    let lost = next(ImageStep::GetServer, ImageEvent::Server(None));
    assert!(matches!(lost, ImageStep::Fail(404)));
    let login = ImageStep::Authenticate { server_url: "http://a".to_string() };
    let refused = next(login, ImageEvent::Login { accepted: false, token: None });
    assert!(matches!(refused, ImageStep::Fail(401)));
    let fetch = ImageStep::Fetch { url: String::new(), authorization: String::new() };
    assert!(matches!(next(fetch, ImageEvent::Fetched(false)), ImageStep::Fail(502)));
}
