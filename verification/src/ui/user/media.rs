//! The pages on which a user looks through the libraries of servers.

use crate::server_id::ServerId;
use crate::server_storage::Server;
use crate::status;
use crate::text;
use crate::ui::response::{self, UiResponse};
use vstd::prelude::*;
use vstd::string::*;

verus! {

/// A server that is shown.
pub struct ServerInfo {
    pub id: ServerId,
    pub name: String,
}

/// A library and how many items it holds.
pub struct LibraryWithCount {
    pub id: String,
    pub name: String,
    pub count: i32,
}

/// What the page of all servers shows.
pub struct UserMediaTemplate {
    pub servers: Vec<ServerInfo>,
    pub ui_route: String,
}

/// What the libraries of a server show.
pub struct ServerLibrariesTemplate {
    pub server_id: ServerId,
    pub libraries: Vec<LibraryWithCount>,
    pub ui_route: String,
}

/// What the items of a library show.
pub struct LibraryItemsTemplate<I> {
    pub server_id: ServerId,
    pub library_id: String,
    pub items: Vec<I>,
    pub next_page: Option<i32>,
    pub ui_route: String,
}

/// Which page of a library is asked for.
pub struct Pagination {
    pub page: Option<i32>,
}

/// What is shown of a server.
pub open spec fn info_of(server: Server) -> ServerInfo {
    ServerInfo { id: server.id, name: server.name }
}

/// Whether a page shows the servers of a user.
pub open spec fn are_shown(
    servers: Option<Vec<Server>>,
    ui_route: String,
    page: Result<UserMediaTemplate, UiResponse>,
) -> bool {
    match servers {
        Some(servers) => {
            &&& page matches Ok(shown)
            &&& shown.servers@ == servers@.map_values(|server: Server| info_of(server))
            &&& shown.ui_route == ui_route
        },
        None => page matches Err(answer) && answer@ == response::text_answer(
            status::INTERNAL_SERVER_ERROR,
            "Database error"@,
        ),
    }
}

/// The servers of a user, or an answer where they could not be listed.
pub fn get_user_media(servers: Option<Vec<Server>>, ui_route: String) -> (r: Result<
    UserMediaTemplate,
    UiResponse,
>)
    ensures
        are_shown(servers, ui_route, r),
{
    let servers = match servers {
        Some(servers) => servers,
        None => return Err(response::plain(status::INTERNAL_SERVER_ERROR, "Database error")),
    };
    let ghost shown = servers@.map_values(|server: Server| info_of(server));
    let mut infos: Vec<ServerInfo> = Vec::new();
    let mut i: usize = 0;
    while i < servers.len()
        invariant
            i <= servers.len(),
            shown == servers@.map_values(|server: Server| info_of(server)),
            infos@ =~= shown.take(i as int),
        decreases servers.len() - i,
    {
        infos.push(ServerInfo { id: servers[i].id, name: servers[i].name.clone() });
        i = i + 1;
    }
    assert(infos@ =~= shown);
    Ok(UserMediaTemplate { servers: infos, ui_route })
}

/// A folder of media on a server.
pub struct MediaFolder {
    pub id: String,
    pub name: String,
    pub collection_type: Option<String>,
}

/// A text in lower case, as `str::to_lowercase` gives it.
pub uninterp spec fn lower_case(text: Seq<char>) -> Seq<char>;

/// `str::to_lowercase`: the text in lower case, which depends on the text alone.
#[verifier::external_body]
fn to_lower_case(text: &str) -> (r: String)
    ensures
        r@ == lower_case(text@),
{
    text.to_lowercase()
}

/// Whether a folder holds playlists, by its type and its name in lower case.
pub open spec fn holds_playlists(
    collection_type: Option<Seq<char>>,
    lower_case_name: Seq<char>,
) -> bool {
    collection_type == Some("playlists"@) || lower_case_name == "playlists"@
}

/// Whether a folder holds playlists, by its type and its name in lower case.
pub fn is_playlists(collection_type: Option<&str>, lower_case_name: &str) -> (r: bool)
    ensures
        r == holds_playlists(text::optional_str(collection_type), lower_case_name@),
{
    let by_type = match collection_type {
        Some(collection_type) => text::str_eq(collection_type, "playlists"),
        None => false,
    };
    by_type || text::str_eq(lower_case_name, "playlists")
}

/// Whether a folder is a library that is shown: all but playlists are.
pub open spec fn is_library(folder: MediaFolder) -> bool {
    !holds_playlists(text::optional_string(folder.collection_type), lower_case(folder.name@))
}

fn test_library(folder: &MediaFolder) -> (r: bool)
    ensures
        r == is_library(*folder),
{
    let collection_type = match &folder.collection_type {
        Some(collection_type) => Some(collection_type.as_str()),
        None => None,
    };
    !is_playlists(collection_type, to_lower_case(folder.name.as_str()).as_str())
}

/// The place of the first library from `at` on; the number of folders if there is none.
pub open spec fn next_library(folders: Seq<MediaFolder>, at: int) -> int
    decreases folders.len() - at,
{
    if at >= folders.len() {
        folders.len() as int
    } else if is_library(folders[at]) {
        at
    } else {
        next_library(folders, at + 1)
    }
}

fn find_library(folders: &Vec<MediaFolder>, from: usize) -> (r: usize)
    requires
        from <= folders.len(),
    ensures
        r == next_library(folders@, from as int),
        from <= r <= folders.len(),
{
    let mut at: usize = from;
    while at < folders.len() && !test_library(&folders[at])
        invariant
            from <= at <= folders.len(),
            next_library(folders@, from as int) == next_library(folders@, at as int),
        decreases folders.len() - at,
    {
        at = at + 1;
    }
    at
}

/// What has to be done next to show the libraries of a server.
pub enum LibrariesStep {
    /// Look the server up.
    GetServer,
    /// Log the user in to the server.
    Authenticate,
    /// List the folders of the server.
    ListFolders,
    /// Count the movies and series in the folder at `at`.
    CountItems { folders: Vec<MediaFolder>, at: usize, libraries: Vec<LibraryWithCount> },
    /// Render the libraries.
    Render { shown: ServerLibrariesTemplate },
    /// Answer.
    Answer(UiResponse),
}

/// What came of a step.
pub enum LibrariesEvent {
    /// Whether the server was found.
    Server(bool),
    /// Whether the user could log in.
    Login(bool),
    /// The folders, if they could be listed.
    Folders(Option<Vec<MediaFolder>>),
    /// The number of items, if they could be counted.
    Counted(Option<i32>),
    /// The libraries, if they could be rendered.
    Rendered(Option<String>),
}

/// Whether a step goes on from the folder at `at` on.
pub open spec fn goes_on_from(
    next: LibrariesStep,
    server_id: ServerId,
    ui_route: Seq<char>,
    folders: Seq<MediaFolder>,
    at: int,
    libraries: Seq<LibraryWithCount>,
) -> bool {
    if next_library(folders, at) < folders.len() {
        &&& next matches LibrariesStep::CountItems { folders: f, at: a, libraries: l }
        &&& f@ == folders
        &&& a == next_library(folders, at)
        &&& l@ == libraries
    } else {
        &&& next matches LibrariesStep::Render { shown }
        &&& shown.server_id == server_id
        &&& shown.libraries@ == libraries
        &&& shown.ui_route@ == ui_route
    }
}

/// The library that a folder is shown as; where its items could not be counted, as empty.
pub open spec fn library_of(folder: MediaFolder, count: Option<i32>) -> LibraryWithCount {
    LibraryWithCount {
        id: folder.id,
        name: folder.name,
        count: match count {
            Some(count) => count,
            None => 0,
        },
    }
}

/// Whether a step follows from the outcome of another.
pub open spec fn libraries_step_follows(
    step: LibrariesStep,
    event: LibrariesEvent,
    server_id: ServerId,
    ui_route: Seq<char>,
    next: LibrariesStep,
) -> bool {
    match (step, event) {
        (LibrariesStep::GetServer, LibrariesEvent::Server(found)) => if found {
            next is Authenticate
        } else {
            next matches LibrariesStep::Answer(answer) && answer@ == response::empty_answer(
                status::NOT_FOUND,
            )
        },
        (LibrariesStep::Authenticate, LibrariesEvent::Login(accepted)) => if accepted {
            next is ListFolders
        } else {
            next matches LibrariesStep::Answer(answer) && answer@ == response::text_answer(
                status::UNAUTHORIZED,
                "Failed to authenticate"@,
            )
        },
        (LibrariesStep::ListFolders, LibrariesEvent::Folders(Some(folders))) => goes_on_from(
            next,
            server_id,
            ui_route,
            folders@,
            0,
            Seq::empty(),
        ),
        (LibrariesStep::ListFolders, LibrariesEvent::Folders(None)) => {
            next matches LibrariesStep::Answer(answer) && answer@ == response::text_answer(
                status::BAD_GATEWAY,
                "Failed to fetch libraries"@,
            )
        },
        (
            LibrariesStep::CountItems { folders, at, libraries },
            LibrariesEvent::Counted(count),
        ) => goes_on_from(
            next,
            server_id,
            ui_route,
            folders@,
            at + 1,
            libraries@.push(library_of(folders[at as int], count)),
        ),
        (LibrariesStep::Render { .. }, LibrariesEvent::Rendered(rendered)) => {
            next matches LibrariesStep::Answer(answer) && answer@ == response::page_answer(
                text::optional_string(rendered),
            )
        },
        (step, _) => next == step,
    }
}

/// Whether the place of a folder is one of those that there are.
pub open spec fn is_in_place(step: LibrariesStep) -> bool {
    step matches LibrariesStep::CountItems { folders, at, .. } ==> at < folders.len()
}

fn go_on_from(
    server_id: ServerId,
    ui_route: &str,
    folders: Vec<MediaFolder>,
    at: usize,
    libraries: Vec<LibraryWithCount>,
) -> (r: LibrariesStep)
    requires
        at <= folders.len(),
    ensures
        goes_on_from(r, server_id, ui_route@, folders@, at as int, libraries@),
        is_in_place(r),
{
    let at: usize = find_library(&folders, at);
    if at < folders.len() {
        LibrariesStep::CountItems { folders, at, libraries }
    } else {
        LibrariesStep::Render {
            shown: ServerLibrariesTemplate { server_id, libraries, ui_route: ui_route.to_owned() },
        }
    }
}

/// Goes on with showing the libraries of a server.
pub fn get_server_libraries(
    step: LibrariesStep,
    event: LibrariesEvent,
    server_id: ServerId,
    ui_route: &str,
) -> (r: LibrariesStep)
    requires
        is_in_place(step),
    ensures
        libraries_step_follows(step, event, server_id, ui_route@, r),
        is_in_place(r),
{
    match (step, event) {
        (LibrariesStep::GetServer, LibrariesEvent::Server(found)) => if found {
            LibrariesStep::Authenticate
        } else {
            LibrariesStep::Answer(response::empty(status::NOT_FOUND))
        },
        (LibrariesStep::Authenticate, LibrariesEvent::Login(accepted)) => if accepted {
            LibrariesStep::ListFolders
        } else {
            LibrariesStep::Answer(response::plain(status::UNAUTHORIZED, "Failed to authenticate"))
        },
        (LibrariesStep::ListFolders, LibrariesEvent::Folders(Some(folders))) => {
            let libraries: Vec<LibraryWithCount> = Vec::new();
            go_on_from(server_id, ui_route, folders, 0, libraries)
        },
        (LibrariesStep::ListFolders, LibrariesEvent::Folders(None)) => LibrariesStep::Answer(
            response::plain(status::BAD_GATEWAY, "Failed to fetch libraries"),
        ),
        (
            LibrariesStep::CountItems { folders, at, libraries },
            LibrariesEvent::Counted(counted),
        ) => {
            let count: i32 = match counted {
                Some(count) => count,
                None => 0,
            };
            let mut libraries: Vec<LibraryWithCount> = libraries;
            libraries.push(
                LibraryWithCount {
                    id: folders[at].id.clone(),
                    name: folders[at].name.clone(),
                    count,
                },
            );
            go_on_from(server_id, ui_route, folders, at + 1, libraries)
        },
        (LibrariesStep::Render { .. }, LibrariesEvent::Rendered(rendered)) => {
            LibrariesStep::Answer(response::page(rendered))
        },
        (step, _) => step,
    }
}

/// Whether libraries are the ones among the folders before `at`, in their order.
pub open spec fn are_libraries_before(
    folders: Seq<MediaFolder>,
    at: int,
    libraries: Seq<LibraryWithCount>,
) -> bool {
    let shown = folders.take(at).filter(|folder: MediaFolder| is_library(folder));
    &&& libraries.len() == shown.len()
    &&& forall|k: int|
        0 <= k < shown.len() ==> (#[trigger] libraries[k]).id == shown[k].id && libraries[k].name
            == shown[k].name
}

proof fn lemma_skipped_folders(folders: Seq<MediaFolder>, at: int)
    requires
        0 <= at <= folders.len(),
    ensures
        at <= next_library(folders, at) <= folders.len(),
        folders.take(next_library(folders, at)).filter(|folder: MediaFolder| is_library(folder))
            == folders.take(at).filter(|folder: MediaFolder| is_library(folder)),
        next_library(folders, at) < folders.len() ==> is_library(
            folders[next_library(folders, at)],
        ),
    decreases folders.len() - at,
{
    reveal(Seq::filter);
    if at < folders.len() && !is_library(folders[at]) {
        lemma_skipped_folders(folders, at + 1);
        assert(folders.take(at + 1).drop_last() =~= folders.take(at));
    }
}

/// Whether the libraries that a step holds are those among the folders that are done with.
pub open spec fn is_counted_so_far(step: LibrariesStep) -> bool {
    step matches LibrariesStep::CountItems { folders, at, libraries } ==> {
        &&& at < folders.len()
        &&& is_library(folders[at as int])
        &&& are_libraries_before(folders@, at as int, libraries@)
    }
}

/// The folders that a step and its outcome are about.
pub open spec fn folders_of(step: LibrariesStep, event: LibrariesEvent) -> Seq<MediaFolder> {
    match (step, event) {
        (LibrariesStep::CountItems { folders, .. }, _) => folders@,
        (_, LibrariesEvent::Folders(Some(folders))) => folders@,
        _ => Seq::empty(),
    }
}

/// The libraries that are shown are all folders but playlists, each once and in their order: a
/// step holds those that are done with, and what is rendered are those among all folders.
pub proof fn law_all_but_playlists_are_shown(
    step: LibrariesStep,
    event: LibrariesEvent,
    server_id: ServerId,
    ui_route: Seq<char>,
    next: LibrariesStep,
)
    requires
        is_counted_so_far(step),
        libraries_step_follows(step, event, server_id, ui_route, next),
    ensures
        is_counted_so_far(next),
        next matches LibrariesStep::CountItems { folders, .. } ==> folders@ == folders_of(
            step,
            event,
        ),
        !(step is Render) ==> (next matches LibrariesStep::Render { shown }
            ==> are_libraries_before(
            folders_of(step, event),
            folders_of(step, event).len() as int,
            shown.libraries@,
        )),
{
    reveal(Seq::filter);
    match (step, event) {
        (LibrariesStep::ListFolders, LibrariesEvent::Folders(Some(folders))) => {
            assert(folders@.take(0) =~= Seq::empty());
            lemma_skipped_folders(folders@, 0);
        },
        (
            LibrariesStep::CountItems { folders, at, libraries },
            LibrariesEvent::Counted(count),
        ) => {
            let rule = |folder: MediaFolder| is_library(folder);
            let folders = folders@;
            let libraries = libraries@;
            let at = at as int;
            let more = libraries.push(library_of(folders[at], count));
            let shown = folders.take(at).filter(rule);
            assert(folders.take(at + 1).drop_last() =~= folders.take(at));
            assert(folders.take(at + 1).filter(rule) == shown.push(folders[at]));
            assert(are_libraries_before(folders, at + 1, more)) by {
                assert forall|k: int| 0 <= k < shown.push(folders[at]).len() implies (
                #[trigger] more[k]).id == shown.push(folders[at])[k].id && more[k].name
                    == shown.push(folders[at])[k].name by {
                    if k < shown.len() {
                        assert(more[k] == libraries[k]);
                    }
                }
            }
            lemma_skipped_folders(folders, at + 1);
        },
        _ => {},
    }
}

/// How many items a page of a library shows.
pub const PAGE_SIZE: i32 = 20;

/// How many pages some items fill.
pub open spec fn pages(total_items: i32) -> int {
    -((-total_items) / (PAGE_SIZE as int))
}

/// The page that is asked for: the first one where none is given.
pub open spec fn page_number(pagination: Pagination) -> i32 {
    match pagination.page {
        Some(page) => page,
        None => 0,
    }
}

/// Whether the place of the first item of a page, and the number of the next one, are numbers that
/// a server can be asked for.
pub open spec fn is_reachable(page: i32) -> bool {
    i32::MIN <= page * PAGE_SIZE <= i32::MAX && page < i32::MAX
}

/// The place of the first item of a page; nothing where it is too far off.
pub fn start_index(pagination: &Pagination) -> (r: Option<i32>)
    ensures
        is_reachable(page_number(*pagination)) ==> r == Some(
            (page_number(*pagination) * PAGE_SIZE) as i32,
        ),
        !is_reachable(page_number(*pagination)) ==> r is None,
{
    let page: i32 = match pagination.page {
        Some(page) => page,
        None => 0,
    };
    let start: i64 = (page as i64) * (PAGE_SIZE as i64);
    if start < (i32::MIN as i64) || start > (i32::MAX as i64) || page == i32::MAX {
        None
    } else {
        Some(start as i32)
    }
}

/// The page after another one, if there are items left for it.
pub open spec fn page_after(pagination: Pagination, total_items: i32) -> Option<i32> {
    if page_number(pagination) + 1 < pages(total_items) {
        Some((page_number(pagination) + 1) as i32)
    } else {
        None
    }
}

/// The page after another one, if there are items left for it.
pub fn next_page(pagination: &Pagination, total_items: i32) -> (r: Option<i32>)
    requires
        is_reachable(page_number(*pagination)),
    ensures
        r == page_after(*pagination, total_items),
{
    let page: i32 = match pagination.page {
        Some(page) => page,
        None => 0,
    };
    let total: i64 = total_items as i64;
    let size: i64 = PAGE_SIZE as i64;
    let full: i64 = total / size;
    let total_pages: i64 = if total > 0 && total % size != 0 {
        full + 1
    } else {
        full
    };
    assert(total_pages == pages(total_items));
    if (page as i64) + 1 < total_pages {
        Some(page + 1)
    } else {
        None
    }
}

/// What has to be done next to show the items of a library.
pub enum ItemsStep<I> {
    /// Look the server up.
    GetServer,
    /// Log the user in to the server.
    Authenticate,
    /// Fetch the items of the page from a place on, those added last first.
    FetchItems { limit: i32, start_index: i32 },
    /// Render the items.
    Render { shown: LibraryItemsTemplate<I> },
    /// Answer.
    Answer(UiResponse),
}

/// What came of a step.
pub enum ItemsEvent<I> {
    /// Whether the server was found.
    Server(bool),
    /// Whether the user could log in.
    Login(bool),
    /// The items of the page and how many there are in all.
    Items { items: Vec<I>, total_record_count: i32 },
    /// The items could not be fetched.
    NoItems,
    /// The items, if they could be rendered.
    Rendered(Option<String>),
}

/// Whether a step follows from the outcome of another.
pub open spec fn items_step_follows<I>(
    step: ItemsStep<I>,
    event: ItemsEvent<I>,
    server_id: ServerId,
    library_id: Seq<char>,
    pagination: Pagination,
    ui_route: Seq<char>,
    next: ItemsStep<I>,
) -> bool {
    match (step, event) {
        (ItemsStep::GetServer, ItemsEvent::Server(found)) => if found {
            next is Authenticate
        } else {
            next matches ItemsStep::Answer(answer) && answer@ == response::empty_answer(
                status::NOT_FOUND,
            )
        },
        (ItemsStep::Authenticate, ItemsEvent::Login(accepted)) => if accepted {
            next matches ItemsStep::FetchItems { limit, start_index } && limit == PAGE_SIZE
                && start_index == page_number(pagination) * PAGE_SIZE
        } else {
            next matches ItemsStep::Answer(answer) && answer@ == response::text_answer(
                status::UNAUTHORIZED,
                "Failed to authenticate"@,
            )
        },
        (ItemsStep::FetchItems { .. }, ItemsEvent::Items { items, total_record_count }) => {
            &&& next matches ItemsStep::Render { shown }
            &&& shown.server_id == server_id
            &&& shown.library_id@ == library_id
            &&& shown.items@ == items@
            &&& shown.next_page == page_after(pagination, total_record_count)
            &&& shown.ui_route@ == ui_route
        },
        (ItemsStep::FetchItems { .. }, ItemsEvent::NoItems) => {
            next matches ItemsStep::Answer(answer) && answer@ == response::text_answer(
                status::BAD_GATEWAY,
                "Failed to fetch items"@,
            )
        },
        (ItemsStep::Render { .. }, ItemsEvent::Rendered(rendered)) => {
            next matches ItemsStep::Answer(answer) && answer@ == response::page_answer(
                text::optional_string(rendered),
            )
        },
        (step, _) => next == step,
    }
}

/// Goes on with showing the items of a library.
pub fn get_library_items<I>(
    step: ItemsStep<I>,
    event: ItemsEvent<I>,
    server_id: ServerId,
    library_id: &str,
    pagination: &Pagination,
    ui_route: &str,
) -> (r: ItemsStep<I>)
    requires
        !(step is GetServer) ==> is_reachable(page_number(*pagination)),
    ensures
        items_step_follows(step, event, server_id, library_id@, *pagination, ui_route@, r),
{
    match (step, event) {
        (ItemsStep::GetServer, ItemsEvent::Server(found)) => if found {
            ItemsStep::Authenticate
        } else {
            ItemsStep::Answer(response::empty(status::NOT_FOUND))
        },
        (ItemsStep::Authenticate, ItemsEvent::Login(accepted)) => if accepted {
            let start_index: i32 = match start_index(pagination) {
                Some(start_index) => start_index,
                None => 0,
            };
            ItemsStep::FetchItems { limit: PAGE_SIZE, start_index }
        } else {
            ItemsStep::Answer(response::plain(status::UNAUTHORIZED, "Failed to authenticate"))
        },
        (ItemsStep::FetchItems { .. }, ItemsEvent::Items { items, total_record_count }) => {
            ItemsStep::Render {
                shown: LibraryItemsTemplate {
                    server_id,
                    library_id: library_id.to_owned(),
                    items,
                    next_page: next_page(pagination, total_record_count),
                    ui_route: ui_route.to_owned(),
                },
            }
        },
        (ItemsStep::FetchItems { .. }, ItemsEvent::NoItems) => ItemsStep::Answer(
            response::plain(status::BAD_GATEWAY, "Failed to fetch items"),
        ),
        (ItemsStep::Render { .. }, ItemsEvent::Rendered(rendered)) => ItemsStep::Answer(
            response::page(rendered),
        ),
        (step, _) => step,
    }
}

/// There is a next page exactly where items are left behind the page.
pub proof fn law_next_page_shows_what_is_left(page: i32, total_items: i32)
    requires
        0 <= page,
        0 <= total_items,
    ensures
        page + 1 < pages(total_items) <==> (page + 1) * PAGE_SIZE < total_items,
{
}

/// The address of the primary image of an item.
pub open spec fn image_url_text(server_url: Seq<char>, item_id: Seq<char>) -> Seq<char> {
    text::trimmed_end(server_url, text::CharClass::Slash) + "/Items/"@ + item_id
        + "/Images/Primary"@
}

/// The address of the primary image of an item.
pub fn image_url(server_url: &str, item_id: &str) -> (r: String)
    ensures
        r@ == image_url_text(server_url@, item_id@),
{
    text::trim_end(server_url, text::CharClass::Slash).to_owned().concat("/Items/").concat(
        item_id,
    ).concat("/Images/Primary")
}

/// The authorization with which the proxy asks for an image.
pub open spec fn auth_header_text(version: Seq<char>, token: Seq<char>) -> Seq<char> {
    "MediaBrowser Client=\"Jellyswarrm Proxy\", Device=\"Server\", DeviceId=\"jellyswarrm-proxy\", Version=\""@
        + version + "\", Token=\""@ + token + "\""@
}

/// The authorization with which the proxy asks for an image; without a token, with an empty one.
pub fn auth_header(version: &str, token: Option<&str>) -> (r: String)
    ensures
        r@ == auth_header_text(
            version@,
            match token {
                Some(token) => token@,
                None => ""@,
            },
        ),
{
    let token = match token {
        Some(token) => token,
        None => "",
    };
    "MediaBrowser Client=\"Jellyswarrm Proxy\", Device=\"Server\", DeviceId=\"jellyswarrm-proxy\", Version=\"".to_owned().concat(
        version,
    ).concat("\", Token=\"").concat(token).concat("\"")
}

/// How long an image may be kept.
pub const IMAGE_CACHE_CONTROL: &'static str = "public, max-age=3600";

/// What has to be done next to pass an image on.
pub enum ImageStep {
    /// Look the server up.
    GetServer,
    /// Log the user in to the server.
    Authenticate { server_url: String },
    /// Ask for an address with an authorization.
    Fetch { url: String, authorization: String },
    /// Pass the answer on, with its type, and let it be kept.
    Deliver,
    /// Answer with a status.
    Fail(u16),
}

/// What came of a step.
pub enum ImageEvent {
    /// The address of the server, if it was found.
    Server(Option<String>),
    /// Whether the user could log in.
    Login { accepted: bool, token: Option<String> },
    /// Whether the server answered.
    Fetched(bool),
}

/// Whether a step follows from the outcome of another.
pub open spec fn image_step_follows(
    step: ImageStep,
    event: ImageEvent,
    item_id: Seq<char>,
    version: Seq<char>,
    next: ImageStep,
) -> bool {
    match (step, event) {
        (ImageStep::GetServer, ImageEvent::Server(Some(server_url))) => next
            == (ImageStep::Authenticate { server_url }),
        (ImageStep::GetServer, ImageEvent::Server(None)) => next == ImageStep::Fail(
            status::NOT_FOUND,
        ),
        (ImageStep::Authenticate { server_url }, ImageEvent::Login { accepted, token }) => {
            if accepted {
                &&& next matches ImageStep::Fetch { url, authorization }
                &&& url@ == image_url_text(server_url@, item_id)
                &&& authorization@ == auth_header_text(
                    version,
                    match token {
                        Some(token) => token@,
                        None => ""@,
                    },
                )
            } else {
                next == ImageStep::Fail(status::UNAUTHORIZED)
            }
        },
        (ImageStep::Fetch { .. }, ImageEvent::Fetched(answered)) => if answered {
            next is Deliver
        } else {
            next == ImageStep::Fail(status::BAD_GATEWAY)
        },
        (step, _) => next == step,
    }
}

/// Goes on with passing an image on.
pub fn proxy_media_image(step: ImageStep, event: ImageEvent, item_id: &str, version: &str) -> (r:
    ImageStep)
    ensures
        image_step_follows(step, event, item_id@, version@, r),
{
    match (step, event) {
        (ImageStep::GetServer, ImageEvent::Server(Some(server_url))) => ImageStep::Authenticate {
            server_url,
        },
        (ImageStep::GetServer, ImageEvent::Server(None)) => ImageStep::Fail(status::NOT_FOUND),
        (ImageStep::Authenticate { server_url }, ImageEvent::Login { accepted, token }) => {
            if accepted {
                let token = match &token {
                    Some(token) => Some(token.as_str()),
                    None => None,
                };
                ImageStep::Fetch {
                    url: image_url(server_url.as_str(), item_id),
                    authorization: auth_header(version, token),
                }
            } else {
                ImageStep::Fail(status::UNAUTHORIZED)
            }
        },
        (ImageStep::Fetch { .. }, ImageEvent::Fetched(answered)) => if answered {
            ImageStep::Deliver
        } else {
            ImageStep::Fail(status::BAD_GATEWAY)
        },
        (step, _) => step,
    }
}

/// The page of all servers shows each of them in its place, by its own identifier and name.
pub proof fn law_every_server_is_shown(
    servers: Option<Vec<Server>>,
    ui_route: String,
    page: Result<UserMediaTemplate, UiResponse>,
)
    requires
        are_shown(servers, ui_route, page),
    ensures
        page is Ok <==> servers is Some,
        page matches Ok(shown) ==> {
            &&& shown.ui_route == ui_route
            &&& shown.servers.len() == servers->0.len()
            &&& forall|i: int|
                0 <= i < shown.servers.len() ==> (#[trigger] shown.servers[i]).id
                    == servers->0[i].id && shown.servers[i].name == servers->0[i].name
        },
        page matches Err(answer) ==> answer.status == 500 && answer@.body
            == response::UiBodyView::Text("Database error"@),
{
    if let Ok(shown) = page {
        assert(shown.servers@.len() == servers->0@.len());
        assert forall|i: int| 0 <= i < shown.servers.len() implies (
        #[trigger] shown.servers[i]).id == servers->0[i].id && shown.servers[i].name
            == servers->0[i].name by {
            assert(shown.servers@[i] == info_of(servers->0@[i]));
        }
    }
}

/// A folder is no library exactly where it is typed as playlists, or is named so without regard to
/// case.
pub proof fn law_playlists_are_no_libraries(folder: MediaFolder)
    ensures
        is_library(folder) <==> !(folder.collection_type matches Some(of) && of@ == "playlists"@)
            && lower_case(folder.name@) != "playlists"@,
{
}

/// A library is shown by the identifier and the name of its folder, with the number of its items, or
/// as empty where they could not be counted.
pub proof fn law_libraries_show_their_folders(
    step: LibrariesStep,
    count: Option<i32>,
    server_id: ServerId,
    ui_route: Seq<char>,
    next: LibrariesStep,
)
    requires
        is_counted_so_far(step),
        step is CountItems,
        libraries_step_follows(step, LibrariesEvent::Counted(count), server_id, ui_route, next),
    ensures
        ({
            let done = step->libraries@;
            let more = match next {
                LibrariesStep::CountItems { libraries, .. } => libraries@,
                LibrariesStep::Render { shown } => shown.libraries@,
                _ => done,
            };
            let folder = step->folders[step->at as int];
            &&& more.len() == done.len() + 1
            &&& forall|k: int| 0 <= k < done.len() ==> #[trigger] more[k] == done[k]
            &&& more.last().id == folder.id
            &&& more.last().name == folder.name
            &&& count matches Some(n) ==> more.last().count == n
            &&& count is None ==> more.last().count == 0
        }),
        next matches LibrariesStep::Render { shown } ==> shown.server_id == server_id
            && shown.ui_route@ == ui_route,
{
}

/// Whether a step is to answer with a status and a text.
pub open spec fn libraries_are_answered(
    step: LibrariesStep,
    code: u16,
    body: response::UiBodyView,
) -> bool {
    &&& step matches LibrariesStep::Answer(answer)
    &&& answer.status == code
    &&& answer@.body == body
    &&& answer.hx_redirect is None
}

/// A server that was found is logged in to, and its folders are listed then. Each failure on the way
/// ends the work with its status, and what is no outcome of a step leaves it as it is.
pub proof fn law_libraries_are_reached_in_order(
    step: LibrariesStep,
    event: LibrariesEvent,
    server_id: ServerId,
    ui_route: Seq<char>,
    next: LibrariesStep,
)
    requires
        libraries_step_follows(step, event, server_id, ui_route, next),
    ensures
        step is GetServer && event == LibrariesEvent::Server(true) ==> next
            == LibrariesStep::Authenticate,
        step is GetServer && event == LibrariesEvent::Server(false) ==> libraries_are_answered(
            next,
            404,
            response::UiBodyView::Empty,
        ),
        step is Authenticate && event == LibrariesEvent::Login(true) ==> next
            == LibrariesStep::ListFolders,
        step is Authenticate && event == LibrariesEvent::Login(false) ==> libraries_are_answered(
            next,
            401,
            response::UiBodyView::Text("Failed to authenticate"@),
        ),
        step is ListFolders && event == LibrariesEvent::Folders(None) ==> libraries_are_answered(
            next,
            502,
            response::UiBodyView::Text("Failed to fetch libraries"@),
        ),
        step is ListFolders ==> (event matches LibrariesEvent::Folders(Some(_)) ==> next is CountItems
            || next is Render),
        step is ListFolders ==> (next matches LibrariesStep::CountItems { libraries, .. }
            ==> libraries.len() == 0),
        step is ListFolders ==> (next matches LibrariesStep::Render { shown }
            ==> shown.libraries.len() == 0 && shown.server_id == server_id && shown.ui_route@
            == ui_route),
        step is Render ==> (event matches LibrariesEvent::Rendered(Some(markup))
            ==> libraries_are_answered(next, 200, response::UiBodyView::Html(markup@))),
        step is Render && event == LibrariesEvent::Rendered(None) ==> libraries_are_answered(
            next,
            500,
            response::UiBodyView::Text("Template error"@),
        ),
        !(step is GetServer && event is Server) && !(step is Authenticate && event is Login) && !(
        step is ListFolders && event is Folders) && !(step is CountItems && event is Counted) && !(
        step is Render && event is Rendered) ==> next == step,
{
}

/// Pages are counted from nought and hold twenty items each: the items of a page are asked for from
/// twenty times its number on, and where none is given, from the first item on.
pub proof fn law_pages_hold_twenty_items<I>(
    step: ItemsStep<I>,
    server_id: ServerId,
    library_id: Seq<char>,
    pagination: Pagination,
    ui_route: Seq<char>,
    next: ItemsStep<I>,
)
    requires
        step is Authenticate,
        items_step_follows(
            step,
            ItemsEvent::Login(true),
            server_id,
            library_id,
            pagination,
            ui_route,
            next,
        ),
    ensures
        next matches ItemsStep::FetchItems { limit, start_index } && limit == 20
            && match pagination.page {
            Some(page) => start_index == 20 * page,
            None => start_index == 0,
        },
{
}

/// The page of a library shows the items that were fetched, as they are, and leads to the next page
/// exactly where the library holds items behind this one.
pub proof fn law_pages_lead_to_the_next<I>(
    step: ItemsStep<I>,
    items: Vec<I>,
    total: i32,
    server_id: ServerId,
    library_id: Seq<char>,
    pagination: Pagination,
    ui_route: Seq<char>,
    next: ItemsStep<I>,
)
    requires
        step is FetchItems,
        total >= 0,
        pagination.page matches Some(page) ==> 0 <= page < i32::MAX,
        items_step_follows(
            step,
            ItemsEvent::Items { items, total_record_count: total },
            server_id,
            library_id,
            pagination,
            ui_route,
            next,
        ),
    ensures
        ({
            let page = match pagination.page {
                Some(page) => page as int,
                None => 0,
            };
            &&& next matches ItemsStep::Render { shown }
            &&& shown.server_id == server_id
            &&& shown.library_id@ == library_id
            &&& shown.items@ == items@
            &&& shown.ui_route@ == ui_route
            &&& 20 * (page + 1) < total ==> (shown.next_page matches Some(n) && n == page + 1)
            &&& 20 * (page + 1) >= total ==> shown.next_page is None
        }),
{
    law_next_page_shows_what_is_left(page_number(pagination), total);
}

/// Whether a step is to answer with a status and a text.
pub open spec fn items_are_answered<I>(
    step: ItemsStep<I>,
    code: u16,
    body: response::UiBodyView,
) -> bool {
    &&& step matches ItemsStep::Answer(answer)
    &&& answer.status == code
    &&& answer@.body == body
    &&& answer.hx_redirect is None
}

/// A server that was found is logged in to, and its items are fetched then. Each failure on the way
/// ends the work with its status, and what is no outcome of a step leaves it as it is.
pub proof fn law_items_are_reached_in_order<I>(
    step: ItemsStep<I>,
    event: ItemsEvent<I>,
    server_id: ServerId,
    library_id: Seq<char>,
    pagination: Pagination,
    ui_route: Seq<char>,
    next: ItemsStep<I>,
)
    requires
        items_step_follows(step, event, server_id, library_id, pagination, ui_route, next),
    ensures
        step is GetServer && event == ItemsEvent::<I>::Server(true) ==> next == ItemsStep::<
            I,
        >::Authenticate,
        step is GetServer && event == ItemsEvent::<I>::Server(false) ==> items_are_answered(
            next,
            404,
            response::UiBodyView::Empty,
        ),
        step is Authenticate && event == ItemsEvent::<I>::Login(true) ==> next is FetchItems,
        step is Authenticate && event == ItemsEvent::<I>::Login(false) ==> items_are_answered(
            next,
            401,
            response::UiBodyView::Text("Failed to authenticate"@),
        ),
        step is FetchItems && event is NoItems ==> items_are_answered(
            next,
            502,
            response::UiBodyView::Text("Failed to fetch items"@),
        ),
        step is Render ==> (event matches ItemsEvent::Rendered(Some(markup)) ==> items_are_answered(
            next,
            200,
            response::UiBodyView::Html(markup@),
        )),
        step is Render && event == ItemsEvent::<I>::Rendered(None) ==> items_are_answered(
            next,
            500,
            response::UiBodyView::Text("Template error"@),
        ),
        !(step is GetServer && event is Server) && !(step is Authenticate && event is Login) && !(
        step is FetchItems && (event is Items || event is NoItems)) && !(step is Render
            && event is Rendered) ==> next == step,
{
}

/// The image of an item is asked for below the address of its server, with one slash between them
/// however many the address ends with, and with the token that the login gave.
pub proof fn law_images_are_asked_for_with_the_token(
    step: ImageStep,
    event: ImageEvent,
    item_id: Seq<char>,
    version: Seq<char>,
    next: ImageStep,
)
    requires
        image_step_follows(step, event, item_id, version, next),
    ensures
        step matches ImageStep::Authenticate { server_url } ==> (event matches ImageEvent::Login {
            accepted,
            token,
        } ==> (accepted ==> {
            &&& next matches ImageStep::Fetch { url, authorization }
            &&& exists|n: int|
                {
                    &&& 0 <= n <= server_url@.len()
                    &&& n > 0 ==> server_url@[n - 1] != '/'
                    &&& forall|k: int|
                        n <= k < server_url@.len() ==> #[trigger] server_url@[k] == '/'
                    &&& url@ == #[trigger] server_url@.take(n) + "/Items/"@ + item_id
                        + "/Images/Primary"@
                }
            &&& response::stands_in(version, authorization@)
            &&& token matches Some(given) ==> authorization@.skip(
                authorization@.len() - given@.len() - 11,
            ) == "\", Token=\""@ + given@ + "\""@
            &&& token is None ==> authorization@.skip(authorization@.len() - 11)
                == "\", Token=\""@ + "\""@
        })),
{
    if let ImageStep::Authenticate { server_url } = step {
        if let ImageEvent::Login { accepted, token } = event {
            if accepted {
                let slash = text::CharClass::Slash;
                text::lemma_trimmed_end_shape(server_url@, slash);
                let n = text::trimmed_end(server_url@, slash).len() as int;
                assert(server_url@.take(n) == text::trimmed_end(server_url@, slash));
                lemma_only_slashes_are_cut(server_url@);
                let given = match token {
                    Some(token) => token@,
                    None => ""@,
                };
                reveal_strlit("\", Token=\"");
                reveal_strlit("\"");
                reveal_strlit("");
                let head = "MediaBrowser Client=\"Jellyswarrm Proxy\", Device=\"Server\", DeviceId=\"jellyswarrm-proxy\", Version=\""@;
                let text = auth_header_text(version, given);
                let tail = "\", Token=\""@ + given + "\""@;
                assert(text =~= head + version + tail);
                assert(response::stands_in(version, text));
                assert(tail.len() == given.len() + 11);
                assert(text.skip(text.len() - given.len() - 11) =~= tail);
                if token is None {
                    assert(tail =~= "\", Token=\""@ + "\""@);
                }
            }
        }
    }
}

proof fn lemma_only_slashes_are_cut(s: Seq<char>)
    ensures
        forall|k: int|
            text::trimmed_end(s, text::CharClass::Slash).len() <= k < s.len() ==> #[trigger] s[k]
                == '/',
    decreases s.len(),
{
    if s.len() > 0 && s.last() == '/' {
        let rest = s.drop_last();
        lemma_only_slashes_are_cut(rest);
        assert forall|k: int|
            text::trimmed_end(s, text::CharClass::Slash).len() <= k < s.len() implies #[trigger] s[k]
            == '/' by {
            if k < rest.len() {
                assert(rest[k] == s[k]);
            }
        }
    }
}

/// A server that was found is logged in to by its own address, and an answer is passed on. Each
/// failure on the way ends the work with its status, and what is no outcome of a step leaves it as it
/// is.
pub proof fn law_images_are_reached_in_order(
    step: ImageStep,
    event: ImageEvent,
    item_id: Seq<char>,
    version: Seq<char>,
    next: ImageStep,
)
    requires
        image_step_follows(step, event, item_id, version, next),
    ensures
        step is GetServer ==> (event matches ImageEvent::Server(Some(server_url)) ==> next
            == (ImageStep::Authenticate { server_url })),
        step is GetServer && event == ImageEvent::Server(None) ==> next == ImageStep::Fail(404),
        step is Authenticate ==> (event matches ImageEvent::Login { accepted, .. } ==> (!accepted
            ==> next == ImageStep::Fail(401))),
        step is Fetch && event == ImageEvent::Fetched(true) ==> next == ImageStep::Deliver,
        step is Fetch && event == ImageEvent::Fetched(false) ==> next == ImageStep::Fail(502),
        !(step is GetServer && event is Server) && !(step is Authenticate && event is Login) && !(
        step is Fetch && event is Fetched) ==> next == step,
{
}

/// A page can be asked for exactly where the place of its first item, twenty times its number, and
/// the number of the next page are both numbers of thirty-two bits.
pub proof fn law_reachable_pages_have_a_first_item(page: i32)
    ensures
        is_reachable(page) <==> -0x8000_0000 <= 20 * page <= 0x7fff_ffff && page + 1 <= 0x7fff_ffff,
        is_reachable(page) ==> -107_374_182 <= page <= 107_374_182,
        0 <= page <= 107_374_182 ==> is_reachable(page),
{
}

} // verus!
