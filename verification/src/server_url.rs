//! Canonical addresses of upstream servers.

use crate::text;
use vstd::prelude::*;

verus! {

#[verifier::external_type_specification]
#[verifier::external_body]
pub struct ExUrl(url::Url);

#[verifier::external_type_specification]
#[verifier::external_body]
pub struct ExParseError(url::ParseError);

/// What `url::Url::parse` returns for a text.
pub uninterp spec fn parsed_url(input: Seq<char>) -> Result<url::Url, url::ParseError>;

/// The URL that `url::Url::set_fragment(None)` leaves.
pub uninterp spec fn without_fragment(url: url::Url) -> url::Url;

/// The URL that `url::Url::set_query(None)` leaves.
pub uninterp spec fn without_query(url: url::Url) -> url::Url;

/// The serialization of a URL, which its `Display` writes.
pub uninterp spec fn url_text(url: url::Url) -> Seq<char>;

/// Whether a URL is what `url::Url::parse` gives for some text.
pub open spec fn is_parsed(url: url::Url) -> bool {
    exists|input: Seq<char>| #[trigger] parsed_url(input) == Ok::<url::Url, url::ParseError>(url)
}

/// Whether a URL is a parsed one from which the fragment was taken.
pub open spec fn is_parsed_without_fragment(url: url::Url) -> bool {
    exists|parsed: url::Url| is_parsed(parsed) && url == #[trigger] without_fragment(parsed)
}

/// Whether a URL is a parsed one from which the fragment and the query were taken.
pub open spec fn is_parsed_address(url: url::Url) -> bool {
    exists|left: url::Url| is_parsed_without_fragment(left) && url == #[trigger] without_query(left)
}

/// Whether a text begins as the address of an HTTP server does.
pub open spec fn is_http(text: Seq<char>) -> bool {
    "http://"@.is_prefix_of(text) || "https://"@.is_prefix_of(text)
}

/// The host of the address of an HTTP server: what stands behind the slashes, and behind the
/// credentials if there are any, up to the port or the path. Of a numeric address in brackets it is
/// the part up to the first colon.
pub open spec fn host_of(address: Seq<char>) -> Seq<char> {
    let rest = address.skip(
        if "https://"@.is_prefix_of(address) {
            8
        } else {
            7
        },
    );
    let authority = rest.take(text::until(rest, '/') as int);
    let at = text::until(authority, '@') as int;
    let host = if at < authority.len() {
        authority.skip(at + 1)
    } else {
        authority
    };
    host.take(text::until(host, ':') as int)
}

/// How many digits of a label in another script `idna`, by which `url` reads a host, decodes.
pub const MOST_DIGITS: usize = 2_000;

/// Whether a label of a host is an ordinary one, or one in another script that is written in no
/// more digits than can be decoded.
pub open spec fn is_readable_label(label: Seq<char>) -> bool {
    "xn--"@.is_prefix_of(label) ==> label.len() <= 4 + MOST_DIGITS
}

/// Whether all labels of the host of an HTTP server can be read.
pub open spec fn has_readable_host(address: Seq<char>) -> bool {
    let labels = text::split_on(host_of(address), '.');
    forall|i: int| 0 <= i < labels.len() ==> is_readable_label(#[trigger] labels[i])
}

/// Whether a text is read as a URL without query and fragment that is written as the text, but for
/// a slash at its end.
pub open spec fn reads_back(text: Seq<char>) -> bool {
    &&& parsed_url(text) matches Ok(url)
    &&& url_text(url) == text || url_text(url) == text.push('/')
    &&& without_fragment(url) == url
    &&& without_query(url) == url
}

/// `url::Url::parse`: the result depends on the text alone.
#[verifier::external_body]
fn parse_url(input: &str) -> (r: Result<url::Url, url::ParseError>)
    ensures
        r == parsed_url(input@),
{
    url::Url::parse(input)
}

/// `url::Url::set_fragment` with no fragment: the serialization is cut at its end. In a URL that
/// was parsed, `#` stands only where the fragment starts and inside the fragment.
#[verifier::external_body]
fn drop_fragment(url: &mut url::Url)
    ensures
        *final(url) == without_fragment(*old(url)),
        url_text(*final(url)).is_prefix_of(url_text(*old(url))),
        is_parsed(*old(url)) ==> !url_text(*final(url)).contains('#'),
{
    url.set_fragment(None)
}

/// `url::Url::set_query` with no query: where there is no fragment, the serialization is cut at
/// its end. In a URL that was parsed, `?` stands only where the query starts, inside the query and
/// inside the fragment.
#[verifier::external_body]
fn drop_query(url: &mut url::Url)
    ensures
        *final(url) == without_query(*old(url)),
        is_parsed_without_fragment(*old(url)) ==> url_text(*final(url)).is_prefix_of(
            url_text(*old(url)),
        ),
        is_parsed_without_fragment(*old(url)) ==> !url_text(*final(url)).contains('?'),
{
    url.set_query(None)
}

/// `to_string` of `url::Url`: the serialization. For an HTTP address it holds no white space, which
/// is escaped outside the host and refused in it. `url::Url::parse` reads it back as it is, and so
/// without the slashes at its end, as then only empty segments are missing in the path; where the
/// path had no others, it becomes one slash. There is no query and no fragment then to take off.
/// The exception is a host with a label in another script that takes more than `MOST_DIGITS` digits
/// to write: it is written all the same, and refused when it is read.
#[verifier::external_body]
fn serialization(url: &url::Url) -> (r: String)
    ensures
        r@ == url_text(*url),
        is_parsed_address(*url) && is_http(r@) ==> forall|i: int|
            0 <= i < r@.len() ==> !text::is_white_space(#[trigger] r@[i]),
        is_parsed_address(*url) && is_http(r@) && has_readable_host(
            text::trimmed_end(r@, text::CharClass::Slash),
        ) ==> reads_back(text::trimmed_end(r@, text::CharClass::Slash)),
{
    url.to_string()
}

/// `Clone` of `url::Url`, which copies every field.
pub assume_specification[ <url::Url as Clone>::clone ](url: &url::Url) -> (r: url::Url)
    ensures
        r == *url,
;

/// Why a text is not the address of a server.
#[derive(Debug)]
pub struct InvalidUrl(pub url::ParseError);

/// The canonical form of an address: without white space around it, query, fragment and
/// trailing slashes.
pub open spec fn canonical(input: Seq<char>) -> Result<Seq<char>, url::ParseError> {
    match parsed_url(text::trimmed(input, text::CharClass::WhiteSpace)) {
        Ok(url) => Ok(
            text::trimmed_end(
                url_text(without_query(without_fragment(url))),
                text::CharClass::Slash,
            ),
        ),
        Err(error) => Err(error),
    }
}

/// Whether an address is canonical: its canonical form is the address itself.
pub open spec fn is_canonical(text: Seq<char>) -> bool {
    canonical(text) == Ok::<Seq<char>, url::ParseError>(text)
}

/// Whether an address is canonical and is read as a URL, if it is that of an HTTP server whose host
/// can be read.
pub open spec fn is_stable(text: Seq<char>) -> bool {
    is_http(text) && has_readable_host(text) ==> is_canonical(text) && parsed_url(text) is Ok
}

/// The address of an upstream server, in canonical form.
#[derive(Debug, PartialEq, Eq, Hash)]
pub struct ServerUrl {
    url: url::Url,
    canonical: String,
}

impl View for ServerUrl {
    type V = Seq<char>;

    closed spec fn view(&self) -> Seq<char> {
        self.canonical@
    }
}

impl Clone for ServerUrl {
    fn clone(&self) -> (r: Self)
        ensures
            r == *self,
    {
        proof {
            use_type_invariant(self);
        }
        ServerUrl { url: self.url.clone(), canonical: self.canonical.clone() }
    }
}

impl ServerUrl {
    #[verifier::type_invariant]
    spec fn url_is_the_canonical_one(&self) -> bool {
        parsed_url(self.canonical@) == Ok::<url::Url, url::ParseError>(self.url)
    }

    /// Reads an address; it keeps the canonical form. The canonical form of the address of an HTTP
    /// server can be read again, if its host can.
    pub fn parse(input: &str) -> (r: Result<Self, InvalidUrl>)
        ensures
            canonical(input@) matches Ok(text) ==> is_stable(text),
            match canonical(input@) {
                Ok(text) => match parsed_url(text) {
                    Ok(_) => r matches Ok(url) && url@ == text,
                    Err(error) => r == Err::<Self, _>(InvalidUrl(error)),
                },
                Err(error) => r == Err::<Self, _>(InvalidUrl(error)),
            },
    {
        match ServerUrl::canonicalize(input) {
            Ok(canonical) => match parse_url(canonical.as_str()) {
                Ok(url) => Ok(ServerUrl { url, canonical }),
                Err(error) => Err(InvalidUrl(error)),
            },
            Err(error) => Err(error),
        }
    }

    /// The canonical form of an address. It holds no query and no fragment, and no slash at its
    /// end. That of an HTTP server is its own canonical form, if its host can be read.
    pub fn canonicalize(input: &str) -> (r: Result<String, InvalidUrl>)
        ensures
            match canonical(input@) {
                Ok(text) => r matches Ok(s) && s@ == text,
                Err(error) => r == Err::<String, _>(InvalidUrl(error)),
            },
            r matches Ok(s) ==> {
                &&& !s@.contains('?')
                &&& !s@.contains('#')
                &&& s@.len() > 0 ==> s@.last() != '/'
                &&& is_stable(s@)
            },
    {
        let mut url = match parse_url(text::trim(input, text::CharClass::WhiteSpace)) {
            Ok(url) => url,
            Err(error) => return Err(InvalidUrl(error)),
        };
        let ghost parsed = url;
        drop_fragment(&mut url);
        let ghost unfragmented = url;
        assert(is_parsed(parsed));
        assert(is_parsed_without_fragment(unfragmented));
        drop_query(&mut url);
        assert(is_parsed_address(url));
        let whole = serialization(&url);
        let cut = text::trim_end(whole.as_str(), text::CharClass::Slash).to_owned();
        proof {
            text::lemma_trimmed_end_shape(whole@, text::CharClass::Slash);
            assert forall|c: char| cut@.contains(c) implies whole@.contains(c) by {
                let i = choose|i: int| 0 <= i < cut@.len() && cut@[i] == c;
                assert(whole@[i] == c);
            }
            assert forall|c: char| whole@.contains(c) implies url_text(unfragmented).contains(c) by {
                let i = choose|i: int| 0 <= i < whole@.len() && whole@[i] == c;
                assert(url_text(unfragmented)[i] == c);
            }
            if is_http(cut@) && has_readable_host(cut@) {
                lemma_canonical_text_is_stable(whole@, cut@);
            }
        }
        Ok(cut)
    }

    /// The canonical form.
    pub fn as_str(&self) -> (r: &str)
        ensures
            r@ == self@,
    {
        self.canonical.as_str()
    }

    /// The URL that the canonical form parses to.
    pub fn as_url(&self) -> (r: &url::Url)
        ensures
            parsed_url(self@) == Ok::<url::Url, url::ParseError>(*r),
    {
        proof {
            use_type_invariant(self);
        }
        &self.url
    }
}

/// An address that is read back is canonical if no white space stands in it.
proof fn lemma_canonical_text_is_stable(whole: Seq<char>, cut: Seq<char>)
    requires
        cut == text::trimmed_end(whole, text::CharClass::Slash),
        is_http(cut),
        is_http(whole) ==> forall|i: int|
            0 <= i < whole.len() ==> !text::is_white_space(#[trigger] whole[i]),
        is_http(whole) ==> reads_back(cut),
    ensures
        is_canonical(cut),
        parsed_url(cut) is Ok,
{
    reveal_strlit("http://");
    reveal_strlit("https://");
    text::lemma_trimmed_end_shape(whole, text::CharClass::Slash);
    assert(is_http(whole)) by {
        if "http://"@.is_prefix_of(cut) {
            assert("http://"@.is_prefix_of(whole));
        } else {
            assert("https://"@.is_prefix_of(whole));
        }
    }
    assert(cut.first() == whole[0]);
    assert(cut.last() == whole[cut.len() - 1]);
    assert(text::trimmed(cut, text::CharClass::WhiteSpace) == cut);
    assert(cut.push('/').drop_last() =~= cut);
    assert(text::trimmed_end(cut, text::CharClass::Slash) == cut);
    assert(text::trimmed_end(cut.push('/'), text::CharClass::Slash) == cut);
}

/// Two addresses have one canonical form where they are read as URLs that agree but for the query and
/// the fragment; an address that cannot be read has none.
pub proof fn law_query_and_fragment_do_not_count(first: Seq<char>, second: Seq<char>)
    ensures
        ({
            let a = parsed_url(text::trimmed(first, text::CharClass::WhiteSpace));
            let b = parsed_url(text::trimmed(second, text::CharClass::WhiteSpace));
            &&& a is Ok && b is Ok && without_query(without_fragment(a->Ok_0)) == without_query(
                without_fragment(b->Ok_0),
            ) ==> canonical(first) == canonical(second) && canonical(first) is Ok
            &&& a matches Err(error) ==> canonical(first) == Err::<Seq<char>, url::ParseError>(error)
        }),
{
}

/// The canonical form is what is written of the address, without its query and fragment, up to the
/// slashes at the end: none is left, and nothing but slashes is missing.
pub proof fn law_only_slashes_are_missing(input: Seq<char>)
    ensures
        canonical(input) matches Ok(short) ==> {
            let url = parsed_url(text::trimmed(input, text::CharClass::WhiteSpace))->Ok_0;
            let whole = url_text(without_query(without_fragment(url)));
            &&& short.len() <= whole.len()
            &&& forall|i: int| 0 <= i < short.len() ==> #[trigger] short[i] == whole[i]
            &&& forall|i: int| short.len() <= i < whole.len() ==> #[trigger] whole[i] == '/'
            &&& short.len() > 0 ==> short.last() != '/'
        },
{
    if let Ok(short) = canonical(input) {
        let url = parsed_url(text::trimmed(input, text::CharClass::WhiteSpace))->Ok_0;
        let whole = url_text(without_query(without_fragment(url)));
        text::lemma_trimmed_end_shape(whole, text::CharClass::Slash);
        let hi = text::lemma_end_that_is_cut(whole, text::CharClass::Slash);
        assert(short =~= whole.take(hi));
        assert forall|i: int| short.len() <= i < whole.len() implies #[trigger] whole[i] == '/' by {
            assert(text::CharClass::Slash.has(whole[i]));
        }
    }
}

/// White space around an address does not count.
pub proof fn law_white_space_around_does_not_count(
    head: Seq<char>,
    input: Seq<char>,
    tail: Seq<char>,
)
    requires
        forall|i: int| 0 <= i < head.len() ==> text::is_white_space(#[trigger] head[i]),
        forall|i: int| 0 <= i < tail.len() ==> text::is_white_space(#[trigger] tail[i]),
    ensures
        canonical(head + input + tail) == canonical(input),
{
    let class = text::CharClass::WhiteSpace;
    let whole = head + input + tail;
    let (lo, hi) = text::law_only_the_ends_are_cut(input, class);
    let n = head.len() as int;
    assert forall|i: int| 0 <= i < n + lo implies class.has(#[trigger] whole[i]) by {
        if i < n {
            assert(whole[i] == head[i]);
        } else {
            assert(whole[i] == input[i - n]);
        }
    }
    assert forall|i: int| n + hi <= i < whole.len() implies class.has(#[trigger] whole[i]) by {
        if i < n + input.len() {
            assert(whole[i] == input[i - n]);
        } else {
            assert(whole[i] == tail[i - n - input.len()]);
        }
    }
    if lo < hi {
        assert(whole[n + lo] == input[lo]);
        assert(whole[n + hi - 1] == input[hi - 1]);
        text::lemma_trimmed_start(whole, class, n + lo);
        let rest = whole.skip(n + lo);
        assert forall|i: int| hi - lo <= i < rest.len() implies class.has(#[trigger] rest[i]) by {
            assert(rest[i] == whole[n + lo + i]);
        }
        assert(rest[hi - lo - 1] == whole[n + hi - 1]);
        text::lemma_trimmed_end(rest, class, hi - lo);
        assert(rest.take(hi - lo) =~= input.subrange(lo, hi));
    } else {
        text::lemma_trimmed_start(whole, class, whole.len() as int);
        assert(whole.skip(whole.len() as int) =~= Seq::empty());
        assert(text::trimmed(whole, class) =~= input.subrange(lo, hi));
    }
}

} // verus!
