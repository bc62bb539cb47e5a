//! Operations on text, stated over the sequence of its characters.

use vstd::prelude::*;
use vstd::string::*;

verus! {

/// The characters that Unicode gives the property `White_Space`.
pub open spec fn is_white_space(c: char) -> bool {
    let n = c as u32;
    ||| 0x9 <= n <= 0xd
    ||| n == 0x20
    ||| n == 0x85
    ||| n == 0xa0
    ||| n == 0x1680
    ||| 0x2000 <= n <= 0x200a
    ||| n == 0x2028
    ||| n == 0x2029
    ||| n == 0x202f
    ||| n == 0x205f
    ||| n == 0x3000
}

/// `char::is_whitespace`: documented to test for the Unicode property `White_Space`, which is a
/// fixed list of characters.
pub assume_specification[ char::is_whitespace ](c: char) -> (r: bool)
    ensures
        r == is_white_space(c),
;

/// The characters of a string.
pub fn chars_of(s: &str) -> (r: Vec<char>)
    ensures
        r@ == s@,
{
    let mut r: Vec<char> = Vec::new();
    for c in it: s.chars()
        invariant
            it.seq() == s@,
            r@ == it.seq().take(it.index() as int),
    {
        r.push(c);
    }
    r
}

/// Whether two strings hold the same characters.
pub fn str_eq(a: &str, b: &str) -> (r: bool)
    ensures
        r == (a@ == b@),
{
    a.to_owned() == b.to_owned()
}

/// A character with `A` to `Z` replaced by `a` to `z`.
pub open spec fn ascii_lower(c: char) -> char {
    if 'A' <= c && c <= 'Z' {
        (c as u32 + 32) as char
    } else {
        c
    }
}

pub open spec fn ascii_lower_all(s: Seq<char>) -> Seq<char> {
    s.map_values(|c: char| ascii_lower(c))
}

fn lower_ascii(c: char) -> (r: char)
    ensures
        r == ascii_lower(c),
{
    if 'A' <= c && c <= 'Z' {
        ((c as u8) + 32) as char
    } else {
        c
    }
}

/// Whether two strings are equal when ASCII letters are compared without their case.
pub fn eq_ignore_ascii_case(a: &str, b: &str) -> (r: bool)
    ensures
        r == (ascii_lower_all(a@) == ascii_lower_all(b@)),
{
    let x = chars_of(a);
    let y = chars_of(b);
    if x.len() != y.len() {
        assert(ascii_lower_all(a@).len() != ascii_lower_all(b@).len());
        return false;
    }
    for i in 0..x.len()
        invariant
            x@ == a@,
            y@ == b@,
            x.len() == y.len(),
            forall|j: int| 0 <= j < i ==> ascii_lower(x[j]) == ascii_lower(y[j]),
    {
        if lower_ascii(x[i]) != lower_ascii(y[i]) {
            assert(ascii_lower_all(a@)[i as int] != ascii_lower_all(b@)[i as int]);
            return false;
        }
    }
    assert(ascii_lower_all(a@) =~= ascii_lower_all(b@));
    true
}

/// What texts say.
pub open spec fn string_views(texts: Seq<String>) -> Seq<Seq<char>> {
    texts.map_values(|text: String| text@)
}

/// What a text says, if there is one.
pub open spec fn optional_string(text: Option<String>) -> Option<Seq<char>> {
    match text {
        Some(text) => Some(text@),
        None => None,
    }
}

/// What a text says, if there is one.
pub open spec fn optional_str(text: Option<&str>) -> Option<Seq<char>> {
    match text {
        Some(text) => Some(text@),
        None => None,
    }
}

/// A set of characters that can be cut from the ends of a string.
#[derive(Clone, Copy)]
pub enum CharClass {
    WhiteSpace,
    Slash,
}

impl CharClass {
    pub open spec fn has(self, c: char) -> bool {
        match self {
            CharClass::WhiteSpace => is_white_space(c),
            CharClass::Slash => c == '/',
        }
    }

    fn holds(self, c: char) -> (r: bool)
        ensures
            r == self.has(c),
    {
        match self {
            CharClass::WhiteSpace => c.is_whitespace(),
            CharClass::Slash => c == '/',
        }
    }
}

/// A sequence without the characters of a class at its start.
pub open spec fn trimmed_start(s: Seq<char>, class: CharClass) -> Seq<char>
    decreases s.len(),
{
    if s.len() > 0 && class.has(s.first()) {
        trimmed_start(s.drop_first(), class)
    } else {
        s
    }
}

/// A sequence without the characters of a class at its end.
pub open spec fn trimmed_end(s: Seq<char>, class: CharClass) -> Seq<char>
    decreases s.len(),
{
    if s.len() > 0 && class.has(s.last()) {
        trimmed_end(s.drop_last(), class)
    } else {
        s
    }
}

/// A sequence without the characters of a class at either end.
pub open spec fn trimmed(s: Seq<char>, class: CharClass) -> Seq<char> {
    trimmed_end(trimmed_start(s, class), class)
}

/// What is cut from the start is exactly the leading run of characters of the class.
pub proof fn lemma_trimmed_start(s: Seq<char>, class: CharClass, k: int)
    requires
        0 <= k <= s.len(),
        forall|i: int| 0 <= i < k ==> class.has(#[trigger] s[i]),
        k < s.len() ==> !class.has(s[k]),
    ensures
        trimmed_start(s, class) == s.skip(k),
    decreases k,
{
    if k > 0 {
        let t = s.drop_first();
        assert forall|i: int| 0 <= i < k - 1 implies class.has(#[trigger] t[i]) by {
            assert(t[i] == s[i + 1]);
        }
        if k < s.len() {
            assert(t[k - 1] == s[k]);
        }
        assert(class.has(s[0]));
        lemma_trimmed_start(t, class, k - 1);
        assert(t.skip(k - 1) =~= s.skip(k));
    } else {
        assert(s.skip(0) =~= s);
    }
}

/// What is cut from the end is exactly the trailing run of characters of the class.
pub proof fn lemma_trimmed_end(s: Seq<char>, class: CharClass, k: int)
    requires
        0 <= k <= s.len(),
        forall|i: int| k <= i < s.len() ==> class.has(#[trigger] s[i]),
        k > 0 ==> !class.has(s[k - 1]),
    ensures
        trimmed_end(s, class) == s.take(k),
    decreases s.len() - k,
{
    if k < s.len() {
        let t = s.drop_last();
        assert(class.has(s[s.len() - 1]));
        assert forall|i: int| k <= i < t.len() implies class.has(#[trigger] t[i]) by {
            assert(t[i] == s[i]);
        }
        if k > 0 {
            assert(t[k - 1] == s[k - 1]);
        }
        lemma_trimmed_end(t, class, k);
        assert(t.take(k) =~= s.take(k));
    } else {
        assert(s.take(k) =~= s);
    }
}

/// Nothing of the class is left at the end, and what is left is a prefix.
pub proof fn lemma_trimmed_end_shape(s: Seq<char>, class: CharClass)
    ensures
        trimmed_end(s, class).len() > 0 ==> !class.has(trimmed_end(s, class).last()),
        trimmed_end(s, class).len() <= s.len(),
        trimmed_end(s, class) == s.take(trimmed_end(s, class).len() as int),
    decreases s.len(),
{
    if s.len() > 0 && class.has(s.last()) {
        lemma_trimmed_end_shape(s.drop_last(), class);
        let k = trimmed_end(s, class).len() as int;
        assert(s.drop_last().take(k) =~= s.take(k));
    } else {
        assert(s.take(s.len() as int) =~= s);
    }
}

proof fn lemma_trimmed_start_shape(s: Seq<char>, class: CharClass)
    ensures
        trimmed_start(s, class).len() > 0 ==> !class.has(trimmed_start(s, class).first()),
    decreases s.len(),
{
    if s.len() > 0 && class.has(s.first()) {
        lemma_trimmed_start_shape(s.drop_first(), class);
    }
}

/// Cutting the ends off twice cuts nothing more.
pub proof fn lemma_trimmed_twice(s: Seq<char>, class: CharClass)
    ensures
        trimmed(trimmed(s, class), class) == trimmed(s, class),
{
    lemma_trimmed_start_shape(s, class);
    lemma_trimmed_end_shape(trimmed_start(s, class), class);
}

/// A string without the characters of a class at its end.
pub fn trim_end(s: &str, class: CharClass) -> (r: &str)
    ensures
        r@ == trimmed_end(s@, class),
{
    let chars = chars_of(s);
    let mut hi: usize = chars.len();
    while hi > 0 && class.holds(chars[hi - 1])
        invariant
            chars@ == s@,
            hi <= chars.len(),
            forall|i: int| hi <= i < chars.len() ==> class.has(#[trigger] s@[i]),
        decreases hi,
    {
        hi = hi - 1;
    }
    proof {
        lemma_trimmed_end(s@, class, hi as int);
        assert(s@.take(hi as int) =~= s@.subrange(0, hi as int));
    }
    s.substring_char(0, hi)
}

/// A string without the characters of a class at its start.
pub fn trim_start(s: &str, class: CharClass) -> (r: &str)
    ensures
        r@ == trimmed_start(s@, class),
{
    let chars = chars_of(s);
    let mut lo: usize = 0;
    while lo < chars.len() && class.holds(chars[lo])
        invariant
            chars@ == s@,
            lo <= chars.len(),
            forall|i: int| 0 <= i < lo ==> class.has(#[trigger] s@[i]),
        decreases chars.len() - lo,
    {
        lo = lo + 1;
    }
    proof {
        lemma_trimmed_start(s@, class, lo as int);
        assert(s@.skip(lo as int) =~= s@.subrange(lo as int, s@.len() as int));
    }
    s.substring_char(lo, chars.len())
}

/// A string without the characters of a class at either end.
pub fn trim(s: &str, class: CharClass) -> (r: &str)
    ensures
        r@ == trimmed(s@, class),
{
    trim_end(trim_start(s, class), class)
}

/// How many characters stand before the first occurrence of `sep`; all of them if there is none.
pub open spec fn until(s: Seq<char>, sep: char) -> nat
    decreases s.len(),
{
    if s.len() == 0 || s.first() == sep {
        0
    } else {
        1 + until(s.drop_first(), sep)
    }
}

/// The pieces of a sequence between the occurrences of `sep`.
pub open spec fn split_on(s: Seq<char>, sep: char) -> Seq<Seq<char>>
    decreases s.len(),
{
    let i = until(s, sep);
    if i >= s.len() {
        seq![s]
    } else {
        seq![s.take(i as int)] + split_on(s.skip(i as int + 1), sep)
    }
}

pub proof fn lemma_until(s: Seq<char>, sep: char, k: int)
    requires
        0 <= k <= s.len(),
        forall|i: int| 0 <= i < k ==> #[trigger] s[i] != sep,
        k < s.len() ==> s[k] == sep,
    ensures
        until(s, sep) == k,
    decreases k,
{
    if k > 0 {
        let t = s.drop_first();
        assert forall|i: int| 0 <= i < k - 1 implies #[trigger] t[i] != sep by {
            assert(t[i] == s[i + 1]);
        }
        if k < s.len() {
            assert(t[k - 1] == s[k]);
        }
        assert(s[0] != sep);
        lemma_until(t, sep, k - 1);
    }
}

/// The part of a string before the first occurrence of `sep`.
pub fn before(s: &str, sep: char) -> (r: &str)
    ensures
        r@ == s@.take(until(s@, sep) as int),
{
    let chars = chars_of(s);
    let mut k: usize = 0;
    while k < chars.len() && chars[k] != sep
        invariant
            chars@ == s@,
            k <= chars.len(),
            forall|i: int| 0 <= i < k ==> #[trigger] s@[i] != sep,
        decreases chars.len() - k,
    {
        k = k + 1;
    }
    proof {
        lemma_until(s@, sep, k as int);
        assert(s@.take(k as int) =~= s@.subrange(0, k as int));
    }
    s.substring_char(0, k)
}

/// The views of a list of strings.
pub open spec fn str_views(v: Seq<&str>) -> Seq<Seq<char>> {
    v.map_values(|s: &str| s@)
}

/// The pieces of a string between the occurrences of `sep`.
pub fn split<'a>(s: &'a str, sep: char) -> (r: Vec<&'a str>)
    ensures
        str_views(r@) == split_on(s@, sep),
{
    let chars = chars_of(s);
    let n: usize = chars.len();
    let mut pieces: Vec<&'a str> = Vec::new();
    let mut from: usize = 0;
    let mut at: usize = 0;
    assert(s@.skip(0) =~= s@);
    assert(str_views(pieces@) + split_on(s@.skip(0), sep) =~= split_on(s@, sep));
    while at < n
        invariant
            chars@ == s@,
            n == chars.len(),
            from <= at <= n,
            forall|i: int| from <= i < at ==> #[trigger] s@[i] != sep,
            str_views(pieces@) + split_on(s@.skip(from as int), sep) == split_on(s@, sep),
        decreases n - at,
    {
        if chars[at] == sep {
            let ghost rest = s@.skip(from as int);
            let ghost before_push = pieces@;
            proof {
                assert forall|i: int| 0 <= i < at - from implies #[trigger] rest[i] != sep by {
                    assert(rest[i] == s@[from + i]);
                }
                assert(rest[at - from] == s@[at as int]);
                lemma_until(rest, sep, at - from);
                assert(rest.take(at - from) =~= s@.subrange(from as int, at as int));
                assert(rest.skip(at - from + 1) =~= s@.skip(at + 1));
            }
            pieces.push(s.substring_char(from, at));
            assert(str_views(pieces@) =~= str_views(before_push) + seq![
                s@.subrange(from as int, at as int),
            ]);
            assert(str_views(pieces@) + split_on(s@.skip(at + 1), sep) =~= str_views(before_push) + (
            seq![s@.subrange(from as int, at as int)] + split_on(s@.skip(at + 1), sep)));
            from = at + 1;
        }
        at = at + 1;
    }
    let ghost rest = s@.skip(from as int);
    proof {
        assert forall|i: int| 0 <= i < rest.len() implies #[trigger] rest[i] != sep by {
            assert(rest[i] == s@[from + i]);
        }
        lemma_until(rest, sep, rest.len() as int);
        assert(rest =~= s@.subrange(from as int, n as int));
    }
    let ghost before_push = pieces@;
    pieces.push(s.substring_char(from, n));
    assert(str_views(pieces@) =~= str_views(before_push) + seq![rest]);
    pieces
}

/// Whether `needle` occurs in `hay` as an unbroken run.
pub open spec fn has_text(hay: Seq<char>, needle: Seq<char>) -> bool {
    exists|i: int|
        0 <= i <= hay.len() - needle.len() && #[trigger] hay.subrange(i, i + needle.len())
            == needle
}

/// Whether `needle` occurs in `hay` as an unbroken run.
pub fn contains(hay: &str, needle: &str) -> (r: bool)
    ensures
        r == has_text(hay@, needle@),
{
    let h = chars_of(hay);
    let n = chars_of(needle);
    if n.len() > h.len() {
        return false;
    }
    let last: usize = h.len() - n.len();
    let mut i: usize = 0;
    while i <= last
        invariant
            h@ == hay@,
            n@ == needle@,
            last == h.len() - n.len(),
            i <= last + 1,
            last + 1 <= usize::MAX || i <= last,
            forall|k: int| 0 <= k < i ==> #[trigger] hay@.subrange(k, k + needle@.len()) != needle@,
        decreases last + 1 - i,
    {
        let mut j: usize = 0;
        while j < n.len() && h[i + j] == n[j]
            invariant
                h@ == hay@,
                n@ == needle@,
                last == h.len() - n.len(),
                i <= last,
                j <= n.len(),
                forall|k: int| 0 <= k < j ==> #[trigger] h[i + k] == n[k],
            decreases n.len() - j,
        {
            j = j + 1;
        }
        let ghost piece = hay@.subrange(i as int, i + needle@.len());
        if j == n.len() {
            proof {
                assert forall|k: int| 0 <= k < piece.len() implies piece[k] == needle@[k] by {
                    assert(h[i + k] == n[k]);
                }
                assert(piece =~= needle@);
            }
            return true;
        }
        assert(piece[j as int] != needle@[j as int]);
        if i == last {
            return false;
        }
        i = i + 1;
    }
    false
}

/// What stands before the first occurrence of a character has none of it, and behind that the text
/// ends or goes on with it.
pub proof fn law_first_occurrence(s: Seq<char>, sep: char)
    ensures
        until(s, sep) <= s.len(),
        forall|i: int| 0 <= i < until(s, sep) ==> #[trigger] s[i] != sep,
        until(s, sep) < s.len() ==> s[until(s, sep) as int] == sep,
    decreases s.len(),
{
    if s.len() > 0 && s.first() != sep {
        let rest = s.drop_first();
        law_first_occurrence(rest, sep);
        assert forall|i: int| 0 <= i < until(s, sep) implies #[trigger] s[i] != sep by {
            if i > 0 {
                assert(rest[i - 1] == s[i]);
            }
        }
        if until(s, sep) < s.len() {
            assert(rest[until(rest, sep) as int] == s[until(s, sep) as int]);
        }
    }
}

/// Pieces put together again, with a character between each two of them.
pub open spec fn joined(pieces: Seq<Seq<char>>, sep: char) -> Seq<char>
    decreases pieces.len(),
{
    if pieces.len() == 0 {
        Seq::empty()
    } else if pieces.len() == 1 {
        pieces[0]
    } else {
        pieces[0] + seq![sep] + joined(pieces.skip(1), sep)
    }
}

/// The pieces of a text have nothing of what separates them, there is at least one, and put
/// together again they are the text.
pub proof fn law_pieces_make_up_the_text(s: Seq<char>, sep: char)
    ensures
        split_on(s, sep).len() > 0,
        forall|i: int|
            0 <= i < split_on(s, sep).len() ==> !(#[trigger] split_on(s, sep)[i]).contains(sep),
        joined(split_on(s, sep), sep) == s,
    decreases s.len(),
{
    law_first_occurrence(s, sep);
    let i = until(s, sep) as int;
    let pieces = split_on(s, sep);
    if i < s.len() {
        let rest = s.skip(i + 1);
        law_pieces_make_up_the_text(rest, sep);
        assert(pieces.skip(1) =~= split_on(rest, sep));
        assert(pieces[0] == s.take(i));
        assert(joined(pieces, sep) =~= s.take(i) + seq![sep] + rest);
        assert(joined(pieces, sep) =~= s);
        assert forall|k: int| 0 <= k < pieces.len() implies !(#[trigger] pieces[k]).contains(sep) by {
            if k > 0 {
                assert(pieces[k] == split_on(rest, sep)[k - 1]);
            }
        }
    } else {
        assert(pieces =~= seq![s]);
    }
}

/// What is left of a text without the characters of a class at its ends is an unbroken part of it
/// that neither begins nor ends with such a character, and only such characters stand around it.
pub proof fn law_only_the_ends_are_cut(s: Seq<char>, class: CharClass) -> (ends: (int, int))
    ensures
        0 <= ends.0 <= ends.1 <= s.len(),
        trimmed(s, class) == s.subrange(ends.0, ends.1),
        forall|i: int| 0 <= i < ends.0 ==> class.has(#[trigger] s[i]),
        forall|i: int| ends.1 <= i < s.len() ==> class.has(#[trigger] s[i]),
        ends.0 < ends.1 ==> !class.has(s[ends.0]) && !class.has(s[ends.1 - 1]),
{
    let lo = lemma_start_that_is_cut(s, class);
    let t = s.skip(lo);
    let n = lemma_end_that_is_cut(t, class);
    let hi = lo + n;
    assert(t.take(n) =~= s.subrange(lo, hi));
    assert forall|i: int| hi <= i < s.len() implies class.has(#[trigger] s[i]) by {
        assert(t[i - lo] == s[i]);
    }
    if n > 0 {
        assert(t[n - 1] == s[hi - 1]);
    }
    (lo, hi)
}

proof fn lemma_start_that_is_cut(s: Seq<char>, class: CharClass) -> (lo: int)
    ensures
        0 <= lo <= s.len(),
        trimmed_start(s, class) == s.skip(lo),
        forall|i: int| 0 <= i < lo ==> class.has(#[trigger] s[i]),
        lo < s.len() ==> !class.has(s[lo]),
    decreases s.len(),
{
    if s.len() > 0 && class.has(s.first()) {
        let rest = s.drop_first();
        let lo = lemma_start_that_is_cut(rest, class);
        assert(rest.skip(lo) =~= s.skip(lo + 1));
        assert forall|i: int| 0 <= i < lo + 1 implies class.has(#[trigger] s[i]) by {
            if i > 0 {
                assert(rest[i - 1] == s[i]);
            }
        }
        if lo < rest.len() {
            assert(rest[lo] == s[lo + 1]);
        }
        lo + 1
    } else {
        assert(s.skip(0) =~= s);
        0
    }
}

/// What is cut from the end are all characters of the class that stand there.
pub proof fn lemma_end_that_is_cut(s: Seq<char>, class: CharClass) -> (hi: int)
    ensures
        0 <= hi <= s.len(),
        trimmed_end(s, class) == s.take(hi),
        forall|i: int| hi <= i < s.len() ==> class.has(#[trigger] s[i]),
        hi > 0 ==> !class.has(s[hi - 1]),
    decreases s.len(),
{
    if s.len() > 0 && class.has(s.last()) {
        let rest = s.drop_last();
        let hi = lemma_end_that_is_cut(rest, class);
        assert(rest.take(hi) =~= s.take(hi));
        assert forall|i: int| hi <= i < s.len() implies class.has(#[trigger] s[i]) by {
            if i < s.len() - 1 {
                assert(rest[i] == s[i]);
            }
        }
        hi
    } else {
        assert(s.take(s.len() as int) =~= s);
        s.len() as int
    }
}

/// A slash is the only character of its class, and the white space that is cut off holds the space,
/// the tab and the ends of lines, but no letter, digit or punctuation of ASCII.
pub proof fn law_classes_hold_their_characters(c: char)
    ensures
        CharClass::Slash.has(c) <==> c == '/',
        c == ' ' || c == '\t' || c == '\n' || c == '\r' ==> CharClass::WhiteSpace.has(c),
        '!' <= c && c <= '~' ==> !CharClass::WhiteSpace.has(c),
{
}

/// Two texts are the same without regard to ASCII case exactly where they have the same length and
/// differ, if at all, in places where both have the same letter in the two cases.
pub proof fn law_case_of_letters_does_not_count(a: Seq<char>, b: Seq<char>)
    ensures
        ascii_lower_all(a) == ascii_lower_all(b) <==> a.len() == b.len() && forall|i: int|
            0 <= i < a.len() ==> {
                ||| #[trigger] a[i] == b[i]
                ||| 'a' <= a[i] && a[i] <= 'z' && b[i] as int == a[i] as int - 32
                ||| 'a' <= b[i] && b[i] <= 'z' && a[i] as int == b[i] as int - 32
            },
{
    if ascii_lower_all(a) == ascii_lower_all(b) {
        assert(ascii_lower_all(a).len() == ascii_lower_all(b).len());
        assert forall|i: int| 0 <= i < a.len() implies {
            ||| #[trigger] a[i] == b[i]
            ||| 'a' <= a[i] && a[i] <= 'z' && b[i] as int == a[i] as int - 32
            ||| 'a' <= b[i] && b[i] <= 'z' && a[i] as int == b[i] as int - 32
        } by {
            assert(ascii_lower_all(a)[i] == ascii_lower_all(b)[i]);
            assert(ascii_lower_all(a)[i] == ascii_lower(a[i]));
            assert(ascii_lower_all(b)[i] == ascii_lower(b[i]));
        }
    }
    if a.len() == b.len() && forall|i: int|
        0 <= i < a.len() ==> {
            ||| #[trigger] a[i] == b[i]
            ||| 'a' <= a[i] && a[i] <= 'z' && b[i] as int == a[i] as int - 32
            ||| 'a' <= b[i] && b[i] <= 'z' && a[i] as int == b[i] as int - 32
        } {
        assert forall|i: int| 0 <= i < a.len() implies ascii_lower_all(a)[i] == ascii_lower_all(
            b,
        )[i] by {
            assert(ascii_lower(a[i]) == ascii_lower(b[i]));
        }
        assert(ascii_lower_all(a) =~= ascii_lower_all(b));
    }
}

/// A text occurs in another one exactly where the other one has all its characters, one behind the
/// other, from some place on.
pub proof fn law_texts_are_found(hay: Seq<char>, needle: Seq<char>)
    ensures
        has_text(hay, needle) <==> exists|i: int| #[trigger] is_found_at(hay, needle, i),
{
    if has_text(hay, needle) {
        let i = choose|i: int|
            0 <= i <= hay.len() - needle.len() && #[trigger] hay.subrange(i, i + needle.len())
                == needle;
        let piece = hay.subrange(i, i + needle.len());
        assert forall|k: int| 0 <= k < needle.len() implies hay[i + k] == #[trigger] needle[k] by {
            assert(piece[k] == needle[k]);
        }
        assert(is_found_at(hay, needle, i));
    }
    if exists|i: int| #[trigger] is_found_at(hay, needle, i) {
        let i = choose|i: int| #[trigger] is_found_at(hay, needle, i);
        assert(hay.subrange(i, i + needle.len()) =~= needle);
    }
}

/// Whether a text has all characters of another one, one behind the other, from a place on.
pub open spec fn is_found_at(hay: Seq<char>, needle: Seq<char>, at: int) -> bool {
    &&& 0 <= at
    &&& at + needle.len() <= hay.len()
    &&& forall|k: int| 0 <= k < needle.len() ==> hay[at + k] == #[trigger] needle[k]
}

} // verus!
