//! What the pages answer with.

use crate::status;
use crate::text;
use vstd::prelude::*;
use vstd::string::*;

verus! {

/// The body of an answer.
#[derive(Debug)]
pub enum UiBody {
    Empty,
    Html(String),
    Text(String),
}

/// What a body says.
pub enum UiBodyView {
    Empty,
    Html(Seq<char>),
    Text(Seq<char>),
}

/// An answer.
#[derive(Debug)]
pub struct UiResponse {
    pub status: u16,
    pub body: UiBody,
    /// Where the page goes on, if it does.
    pub hx_redirect: Option<String>,
}

/// What an answer says.
pub struct UiResponseView {
    pub status: u16,
    pub body: UiBodyView,
    pub hx_redirect: Option<Seq<char>>,
}

impl View for UiResponse {
    type V = UiResponseView;

    open spec fn view(&self) -> UiResponseView {
        UiResponseView {
            status: self.status,
            body: match self.body {
                UiBody::Empty => UiBodyView::Empty,
                UiBody::Html(html) => UiBodyView::Html(html@),
                UiBody::Text(text) => UiBodyView::Text(text@),
            },
            hx_redirect: text::optional_string(self.hx_redirect),
        }
    }
}

/// An answer with markup.
pub open spec fn html_answer(code: u16, markup: Seq<char>) -> UiResponseView {
    UiResponseView { status: code, body: UiBodyView::Html(markup), hx_redirect: None }
}

/// An answer with plain text.
pub open spec fn text_answer(code: u16, text: Seq<char>) -> UiResponseView {
    UiResponseView { status: code, body: UiBodyView::Text(text), hx_redirect: None }
}

/// An answer without a body.
pub open spec fn empty_answer(code: u16) -> UiResponseView {
    UiResponseView { status: code, body: UiBodyView::Empty, hx_redirect: None }
}

/// An answer that lets the page go on elsewhere.
pub open spec fn redirect_answer(ui_route: Seq<char>) -> UiResponseView {
    UiResponseView {
        status: status::OK,
        body: UiBodyView::Empty,
        hx_redirect: Some("/"@ + ui_route),
    }
}

/// The markup of an alert.
pub open spec fn alert_markup(message: Seq<char>) -> Seq<char> {
    "<div class=\"alert alert-error\">"@ + message + "</div>"@
}

/// The markup of a box with an error.
pub open spec fn box_markup(message: Seq<char>) -> Seq<char> {
    "<div style=\"background-color: #e74c3c; color: white; padding: 0.75rem; border-radius: 0.25rem; margin-bottom: 1rem;\">"@
        + message + "</div>"@
}

/// The markup of an error in a line.
pub open spec fn span_markup(message: Seq<char>) -> Seq<char> {
    "<span style=\"color: #dc3545;\">"@ + message + "</span>"@
}

/// An answer with markup.
pub fn html(code: u16, markup: String) -> (r: UiResponse)
    ensures
        r@ == html_answer(code, markup@),
{
    UiResponse { status: code, body: UiBody::Html(markup), hx_redirect: None }
}

/// An answer with plain text.
pub fn plain(code: u16, text: &str) -> (r: UiResponse)
    ensures
        r@ == text_answer(code, text@),
{
    UiResponse { status: code, body: UiBody::Text(text.to_owned()), hx_redirect: None }
}

/// An answer without a body.
pub fn empty(code: u16) -> (r: UiResponse)
    ensures
        r@ == empty_answer(code),
{
    UiResponse { status: code, body: UiBody::Empty, hx_redirect: None }
}

/// An answer that lets the page go on elsewhere.
pub fn redirect(ui_route: &str) -> (r: UiResponse)
    ensures
        r@ == redirect_answer(ui_route@),
{
    UiResponse {
        status: status::OK,
        body: UiBody::Empty,
        hx_redirect: Some("/".to_owned().concat(ui_route)),
    }
}

/// An answer with an alert.
pub fn alert(code: u16, message: &str) -> (r: UiResponse)
    ensures
        r@ == html_answer(code, alert_markup(message@)),
{
    html(
        code,
        "<div class=\"alert alert-error\">".to_owned().concat(message).concat("</div>"),
    )
}

/// An answer with a box that shows an error.
pub fn error_box(code: u16, message: &str) -> (r: UiResponse)
    ensures
        r@ == html_answer(code, box_markup(message@)),
{
    html(
        code,
        "<div style=\"background-color: #e74c3c; color: white; padding: 0.75rem; border-radius: 0.25rem; margin-bottom: 1rem;\">".to_owned().concat(
            message,
        ).concat("</div>"),
    )
}

/// An answer with an error in a line.
pub fn error_span(code: u16, message: &str) -> (r: UiResponse)
    ensures
        r@ == html_answer(code, span_markup(message@)),
{
    html(
        code,
        "<span style=\"color: #dc3545;\">".to_owned().concat(message).concat("</span>"),
    )
}

/// What is answered with a page, if it could be rendered.
pub open spec fn page_answer(rendered: Option<Seq<char>>) -> UiResponseView {
    match rendered {
        Some(markup) => html_answer(status::OK, markup),
        None => text_answer(status::INTERNAL_SERVER_ERROR, "Template error"@),
    }
}

/// Answers with a page, if it could be rendered.
pub fn page(rendered: Option<String>) -> (r: UiResponse)
    ensures
        r@ == page_answer(text::optional_string(rendered)),
{
    match rendered {
        Some(markup) => html(status::OK, markup),
        None => plain(status::INTERNAL_SERVER_ERROR, "Template error"),
    }
}

/// Whether the body of an answer tells a message.
pub open spec fn tells(answer: UiResponseView, message: Seq<char>) -> bool {
    match answer.body {
        UiBodyView::Empty => false,
        UiBodyView::Html(markup) => stands_in(message, markup),
        UiBodyView::Text(text) => stands_in(message, text),
    }
}

/// Whether a text stands in another one.
pub open spec fn stands_in(part: Seq<char>, whole: Seq<char>) -> bool {
    exists|head: Seq<char>, tail: Seq<char>| #[trigger] (head + part + tail) == whole
}

/// An answer with an error has the status that was meant for it, tells the message and lets the page
/// stay where it is; one that lets the page go on succeeds and tells where.
pub proof fn law_answers_tell_what_they_should(code: u16, message: Seq<char>)
    ensures
        html_answer(code, alert_markup(message)).status == code,
        html_answer(code, alert_markup(message)).hx_redirect is None,
        tells(html_answer(code, alert_markup(message)), message),
        tells(html_answer(code, box_markup(message)), message),
        tells(html_answer(code, span_markup(message)), message),
        html_answer(code, message).body == UiBodyView::Html(message),
        text_answer(code, message).body == UiBodyView::Text(message),
        text_answer(code, message).status == code,
        text_answer(code, message).hx_redirect is None,
        tells(text_answer(code, message), message),
        empty_answer(code).status == code,
        empty_answer(code).body == UiBodyView::Empty,
        empty_answer(code).hx_redirect is None,
        redirect_answer(message).status == 200,
        redirect_answer(message).body == UiBodyView::Empty,
        redirect_answer(message).hx_redirect == Some(seq!['/'] + message),
        page_answer(Some(message)) == html_answer(200, message),
        page_answer(None).status == 500,
        tells(page_answer(None), "Template error"@),
{
    lemma_stands_in(message);
    lemma_stands_in("Template error"@);
    reveal_strlit("/");
    assert("/"@ =~= seq!['/']);
    assert(alert_markup(message) == "<div class=\"alert alert-error\">"@ + message + "</div>"@);
    assert(stands_in(message, alert_markup(message)));
    assert(stands_in(message, box_markup(message)));
    assert(stands_in(message, span_markup(message)));
}

proof fn lemma_stands_in(message: Seq<char>)
    ensures
        stands_in(message, message),
{
    let nothing = Seq::<char>::empty();
    assert(nothing + message + nothing =~= message);
}

} // verus!
