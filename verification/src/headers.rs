//! Reading a header list: finding a header by name, whatever its case, and
//! showing a value as text.

use crate::request::{Header, HeaderView, InspectedRequest, header_views};
use crate::text::{
    all_ascii, all_visible, ascii_bytes, ascii_chars, display_string, is_visible, is_visible_byte,
    lemma_ascii_is_utf8,
};
use vstd::prelude::*;
use vstd::string::{StrSliceExecFns, StringExecFns};
use vstd::utf8::*;

verus! {

/// An ASCII capital letter as its small letter; any other character as it is.
pub open spec fn lower_char(c: char) -> char {
    if 'A' <= c && c <= 'Z' {
        ((c as u8) + 32) as char
    } else {
        c
    }
}

/// `name` with its ASCII capital letters made small.
pub open spec fn lowered(name: Seq<char>) -> Seq<char> {
    Seq::new(name.len(), |i: int| lower_char(name[i]))
}

/// The index of the first header at or after `from` whose name, in small
/// letters, is `word`; the length of `headers` where there is none.
pub open spec fn first_named_from(headers: Seq<HeaderView>, word: Seq<char>, from: int) -> int
    decreases headers.len() - from,
{
    if from < 0 || from >= headers.len() {
        headers.len() as int
    } else if lowered(headers[from].name) == word {
        from
    } else {
        first_named_from(headers, word, from + 1)
    }
}

/// The index of the first header whose name, in small letters, is `word`;
/// the length of `headers` where there is none.
pub open spec fn first_named(headers: Seq<HeaderView>, word: Seq<char>) -> int {
    first_named_from(headers, word, 0)
}

/// A header value as text: its bytes as characters where all of them are
/// printable ASCII, spaces or tabs, and `None` otherwise.
pub open spec fn value_text(value: Seq<u8>) -> Option<Seq<char>> {
    if all_visible(value) {
        Some(ascii_chars(value))
    } else {
        None
    }
}

/// A header value as it is shown: its text, or nothing where it has none.
pub open spec fn shown_value(value: Seq<u8>) -> Seq<char> {
    match value_text(value) {
        Some(text) => text,
        None => Seq::empty(),
    }
}

/// An ASCII capital letter as its small letter; any other byte as it is.
pub open spec fn lower_byte(b: u8) -> u8 {
    if 65 <= b <= 90 {
        (b + 32) as u8
    } else {
        b
    }
}

/// An ASCII capital letter as its small letter; any other byte as it is.
fn to_lower(b: u8) -> (l: u8)
    ensures
        l == lower_byte(b),
{
    if 65 <= b && b <= 90 {
        b + 32
    } else {
        b
    }
}

/// Text whose small-letter form is ASCII is ASCII itself.
proof fn lemma_lowered_ascii(name: Seq<char>, word: Seq<char>)
    requires
        is_ascii_chars(word),
        lowered(name) == word,
    ensures
        is_ascii_chars(name),
        encode_utf8(name) == ascii_bytes(name),
{
    assert forall|i: int| 0 <= i < name.len() implies '\0' <= #[trigger] name[i] <= '\u{7f}' by {
        assert(lowered(name)[i] == word[i]);
        assert('\0' <= word[i] <= '\u{7f}');
    }
    is_ascii_chars_encode_utf8(name);
    assert(encode_utf8(name) =~= ascii_bytes(name));
}

/// An ASCII capital letter as its small letter; any other character as it is.
fn to_lower_char(c: char) -> (l: char)
    ensures
        l == lower_char(c),
{
    if 'A' <= c && c <= 'Z' {
        ((c as u8) + 32) as char
    } else {
        c
    }
}

/// Whether `name`, with its ASCII capital letters made small, is `word`,
/// found character by character.
fn name_is_by_chars(name: &str, word: &str) -> (same: bool)
    ensures
        same == (lowered(name@) == word@),
{
    let n = name.unicode_len();
    if n != word.unicode_len() {
        return false;
    }
    let mut i: usize = 0;
    while i < n
        invariant
            i <= n,
            n == name@.len(),
            n == word@.len(),
            forall|j: int| 0 <= j < i ==> lower_char(#[trigger] name@[j]) == word@[j],
        decreases n - i,
    {
        if to_lower_char(name.get_char(i)) != word.get_char(i) {
            proof {
                if lowered(name@) == word@ {
                    assert(lowered(name@)[i as int] == word@[i as int]);
                }
            }
            return false;
        }
        i += 1;
    }
    proof {
        assert(lowered(name@) =~= word@);
    }
    true
}

/// Whether `name`, with its ASCII capital letters made small, is `word`.
pub fn name_is(name: &str, word: &str) -> (same: bool)
    ensures
        same == (lowered(name@) == word@),
{
    if word.is_ascii() {
        name_is_by_bytes(name, word)
    } else {
        name_is_by_chars(name, word)
    }
}

/// Whether `name`, with its ASCII capital letters made small, is the ASCII
/// word `word`, found byte by byte.
fn name_is_by_bytes(name: &str, word: &str) -> (same: bool)
    requires
        is_ascii_chars(word@),
    ensures
        same == (lowered(name@) == word@),
{
    let given = name.as_bytes();
    let expected = word.as_bytes();
    proof {
        is_ascii_chars_encode_utf8(word@);
        assert(expected@ =~= ascii_bytes(word@));
        encode_utf8_decode_utf8(name@);
        encode_utf8_valid_utf8(name@);
    }
    if given.len() != expected.len() {
        proof {
            if lowered(name@) == word@ {
                lemma_lowered_ascii(name@, word@);
            }
        }
        return false;
    }
    let mut i: usize = 0;
    while i < given.len()
        invariant
            given.len() == expected.len(),
            i <= given.len(),
            given@ == encode_utf8(name@),
            expected@ == ascii_bytes(word@),
            is_ascii_chars(word@),
            forall|j: int| 0 <= j < i ==> lower_byte(#[trigger] given[j]) == expected[j],
        decreases given.len() - i,
    {
        if to_lower(given[i]) != expected[i] {
            proof {
                if lowered(name@) == word@ {
                    lemma_lowered_ascii(name@, word@);
                    assert(lowered(name@)[i as int] == word@[i as int]);
                    assert(given[i as int] == name@[i as int] as u8);
                }
            }
            return false;
        }
        i += 1;
    }
    proof {
        assert forall|j: int| 0 <= j < given@.len() implies #[trigger] given@[j] < 128 by {
            assert(lower_byte(given[j]) == expected[j]);
            assert('\0' <= word@[j] <= '\u{7f}');
            assert(expected[j] == word@[j] as u8);
        }
        assert(all_ascii(given@));
        lemma_ascii_is_utf8(given@);
        assert(name@ == ascii_chars(given@));
        assert forall|j: int| 0 <= j < name@.len() implies lowered(name@)[j] == word@[j] by {
            assert(lower_byte(given[j]) == expected[j]);
            assert('\0' <= word@[j] <= '\u{7f}');
            assert(expected[j] == word@[j] as u8);
        }
        assert(lowered(name@) =~= word@);
    }
    true
}

/// Finds the first header whose name, in small letters, is `word`.
pub fn find_header<'a>(headers: &'a Vec<Header>, word: &str) -> (found: Option<&'a Header>)
    ensures
        found.is_some() == (first_named(header_views(headers@), word@) < headers.len()),
        found matches Some(h) ==> h@ == header_views(headers@)[first_named(header_views(headers@), word@)],
{
    let mut i: usize = 0;
    while i < headers.len()
        invariant
            i <= headers.len(),
            first_named(header_views(headers@), word@) == first_named_from(
                header_views(headers@),
                word@,
                i as int,
            ),
        decreases headers.len() - i,
    {
        if name_is(headers[i].name.as_str(), word) {
            return Some(&headers[i]);
        }
        i += 1;
    }
    None
}

/// Shows a header value as text, or as nothing where it has no text.
pub fn value_string(value: &[u8]) -> (text: String)
    ensures
        text@ == shown_value(value@),
{
    if is_visible(value) {
        display_string(value)
    } else {
        String::new()
    }
}

/// The line that shows one header: its name, a colon and a space, and its
/// value as text.
pub open spec fn header_text(header: HeaderView) -> Seq<char> {
    header.name + ": "@ + shown_value(header.value)
}

/// The lines that show `headers`, one per header in the order given, with a
/// line feed between one line and the next.
pub open spec fn formatted_headers(headers: Seq<HeaderView>) -> Seq<char>
    decreases headers.len(),
{
    if headers.len() == 0 {
        Seq::empty()
    } else if headers.len() == 1 {
        header_text(headers[0])
    } else {
        formatted_headers(headers.drop_last()) + "\n"@ + header_text(headers.last())
    }
}

/// Renders the headers of a request, one line per header as
/// `name: value`, in the order of arrival and leaving none out. A value that
/// is not text is shown as nothing.
pub fn format_header(req: &InspectedRequest) -> (text: String)
    ensures
        text@ == formatted_headers(req@.headers),
{
    let headers = &req.headers;
    let ghost views = header_views(headers@);
    let mut text = String::new();
    let mut i: usize = 0;
    proof {
        assert(views.subrange(0, 0) =~= Seq::<HeaderView>::empty());
    }
    while i < headers.len()
        invariant
            i <= headers.len(),
            views == header_views(headers@),
            text@ == formatted_headers(views.subrange(0, i as int)),
        decreases headers.len() - i,
    {
        let ghost before = text@;
        if i > 0 {
            text.append("\n");
        }
        text.append(headers[i].name.as_str());
        text.append(": ");
        let value = value_string(headers[i].value.as_slice());
        text.append(value.as_str());
        proof {
            let longer = views.subrange(0, i + 1);
            assert(longer.drop_last() =~= views.subrange(0, i as int));
            assert(longer.last() == headers[i as int]@);
            let line = header_text(headers[i as int]@);
            if i > 0 {
                assert(text@ =~= before + "\n"@ + line);
            } else {
                assert(before =~= Seq::<char>::empty());
                assert(text@ =~= line);
            }
        }
        i += 1;
    }
    proof {
        assert(views.subrange(0, headers.len() as int) =~= views);
    }
    text
}

/// A name that can be told from what follows it in a header line: it holds
/// no colon and no line feed.
pub open spec fn is_plain_name(name: Seq<char>) -> bool {
    forall|i: int| 0 <= i < name.len() ==> #[trigger] name[i] != ':' && name[i] != '\n'
}

/// Every header of `headers` has a plain name.
pub open spec fn plain_names(headers: Seq<HeaderView>) -> bool {
    forall|i: int| 0 <= i < headers.len() ==> is_plain_name(#[trigger] headers[i].name)
}

/// `text` holds no line feed.
spec fn single_line(text: Seq<char>) -> bool {
    forall|i: int| 0 <= i < text.len() ==> #[trigger] text[i] != '\n'
}

/// A header line is the name, then a colon and a space, then the shown
/// value, and holds no line feed.
proof fn lemma_header_text_shape(header: HeaderView)
    requires
        is_plain_name(header.name),
    ensures
        single_line(header_text(header)),
        header_text(header).len() == header.name.len() + 2 + shown_value(header.value).len(),
        header_text(header)[header.name.len() as int] == ':',
        forall|i: int| 0 <= i < header.name.len() ==> header_text(header)[i] == header.name[i],
        forall|i: int|
            0 <= i < shown_value(header.value).len() ==> header_text(header)[header.name.len() + 2
                + i] == shown_value(header.value)[i],
{
    reveal_strlit(": ");
    let text = header_text(header);
    let n = header.name.len() as int;
    let shown = shown_value(header.value);
    assert forall|i: int| 0 <= i < text.len() implies #[trigger] text[i] != '\n' by {
        if i < n {
            assert(text[i] == header.name[i]);
        } else if i < n + 2 {
            assert(text[i] == ": "@[i - n]);
        } else {
            assert(text[i] == shown[i - n - 2]);
            assert(all_visible(header.value));
            assert(is_visible_byte(header.value[i - n - 2]));
        }
    }
}

/// A header line tells the name and the shown value of its header.
proof fn lemma_header_text_injective(a: HeaderView, b: HeaderView)
    requires
        is_plain_name(a.name),
        is_plain_name(b.name),
        header_text(a) == header_text(b),
    ensures
        a.name == b.name,
        shown_value(a.value) == shown_value(b.value),
{
    lemma_header_text_shape(a);
    lemma_header_text_shape(b);
    let text = header_text(a);
    if a.name.len() < b.name.len() {
        assert(text[a.name.len() as int] == b.name[a.name.len() as int]);
    }
    if b.name.len() < a.name.len() {
        assert(text[b.name.len() as int] == a.name[b.name.len() as int]);
    }
    assert(a.name =~= b.name);
    assert(shown_value(a.value) =~= shown_value(b.value));
}

/// Text that ends in a line feed and a last line tells both what stands
/// before that line feed and the last line.
proof fn lemma_last_line(x: Seq<char>, u: Seq<char>, y: Seq<char>, v: Seq<char>)
    requires
        single_line(u),
        single_line(v),
        x + "\n"@ + u == y + "\n"@ + v,
    ensures
        x == y,
        u == v,
{
    reveal_strlit("\n");
    let s = x + "\n"@ + u;
    let t = y + "\n"@ + v;
    assert(s.len() == x.len() + 1 + u.len());
    assert(t.len() == y.len() + 1 + v.len());
    assert(s[x.len() as int] == '\n');
    assert(t[y.len() as int] == '\n');
    if u.len() < v.len() {
        assert(t[x.len() as int] == v[x.len() - y.len() - 1]);
    }
    if v.len() < u.len() {
        assert(s[y.len() as int] == u[y.len() - x.len() - 1]);
    }
    assert(x =~= s.subrange(0, x.len() as int));
    assert(y =~= t.subrange(0, y.len() as int));
    assert(u =~= s.subrange(x.len() as int + 1, s.len() as int));
    assert(v =~= t.subrange(y.len() as int + 1, t.len() as int));
}

/// The lines of at least one header are not empty, and those of two or more
/// hold a line feed where the last line begins.
proof fn lemma_formatted_shape(headers: Seq<HeaderView>)
    requires
        headers.len() > 0,
    ensures
        formatted_headers(headers).len() >= 2,
        headers.len() >= 2 ==> formatted_headers(headers)[formatted_headers(
            headers.drop_last(),
        ).len() as int] == '\n',
{
    reveal_strlit(": ");
    reveal_strlit("\n");
}

/// Formatting keeps the count, the order and the pairing of the headers:
/// two lists of headers with plain names whose lines are the same have the
/// same length and, place by place, the same names and the same shown
/// values.
pub proof fn lemma_formatted_headers_tell_headers(a: Seq<HeaderView>, b: Seq<HeaderView>)
    requires
        plain_names(a),
        plain_names(b),
        formatted_headers(a) == formatted_headers(b),
    ensures
        a.len() == b.len(),
        forall|i: int|
            0 <= i < a.len() ==> (#[trigger] a[i]).name == b[i].name && shown_value(a[i].value)
                == shown_value(b[i].value),
    decreases a.len(),
{
    if a.len() == 0 || b.len() == 0 {
        if a.len() > 0 {
            lemma_formatted_shape(a);
        }
        if b.len() > 0 {
            lemma_formatted_shape(b);
        }
    } else if a.len() == 1 || b.len() == 1 {
        lemma_formatted_shape(a);
        lemma_formatted_shape(b);
        if a.len() == 1 {
            assert(is_plain_name(a[0].name));
            lemma_header_text_shape(a[0]);
        }
        if b.len() == 1 {
            assert(is_plain_name(b[0].name));
            lemma_header_text_shape(b[0]);
        }
        assert(a.len() == 1 && b.len() == 1);
        lemma_header_text_injective(a[0], b[0]);
    } else {
        let front_a = a.drop_last();
        let front_b = b.drop_last();
        assert(is_plain_name(a.last().name));
        assert(is_plain_name(b.last().name));
        lemma_header_text_shape(a.last());
        lemma_header_text_shape(b.last());
        lemma_last_line(
            formatted_headers(front_a),
            header_text(a.last()),
            formatted_headers(front_b),
            header_text(b.last()),
        );
        assert forall|i: int| 0 <= i < front_a.len() implies is_plain_name(
            #[trigger] front_a[i].name,
        ) by {
            assert(front_a[i] == a[i]);
        }
        assert forall|i: int| 0 <= i < front_b.len() implies is_plain_name(
            #[trigger] front_b[i].name,
        ) by {
            assert(front_b[i] == b[i]);
        }
        lemma_formatted_headers_tell_headers(front_a, front_b);
        lemma_header_text_injective(a.last(), b.last());
        assert forall|i: int| 0 <= i < a.len() implies (#[trigger] a[i]).name == b[i].name
            && shown_value(a[i].value) == shown_value(b[i].value) by {
            if i < a.len() - 1 {
                assert(front_a[i] == a[i]);
                assert(front_b[i] == b[i]);
            }
        }
    }
}

} // verus!
