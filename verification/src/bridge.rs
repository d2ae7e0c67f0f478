//! The calls that this library makes into other crates. Verus takes the
//! contracts in this file on trust: each says what the function it names
//! is taken to do.

use crate::responses::{tokens_of, QUERY_PATTERN};
use crate::text::first_index_of;
use vstd::prelude::*;

verus! {

/// The parts of `text` that the regular expression `pattern` matches, from
/// left to right, as `regex::Regex::find_iter` yields them; `None` where
/// `regex::Regex::new` does not compile `pattern`.
pub uninterp spec fn pattern_matches(pattern: Seq<char>, text: Seq<char>) -> Option<
    Seq<Seq<char>>,
>;

/// The texts of a list of parts, if there is one.
pub open spec fn parts_of(found: Option<Vec<&str>>) -> Option<Seq<Seq<char>>> {
    match found {
        Some(parts) => Some(parts@.map_values(|part: &str| part@)),
        None => None,
    }
}

/// Compiles `pattern` with `regex::Regex::new` and collects the text of
/// each match that `regex::Regex::find_iter` yields in `text`. The contract
/// gives that list its name. Of the one pattern `QUERY_PATTERN` it says
/// more: that pattern compiles, and its matches are the tokens of
/// `tokens_of`, since a match begins at the leftmost `{response:` behind
/// the match before it, `[^}]*` takes every character up to the next `}`,
/// and matches do not overlap.
#[verifier::external_body]
pub(crate) fn find_all<'a>(pattern: &str, text: &'a str) -> (found: Option<Vec<&'a str>>)
    ensures
        parts_of(found) == pattern_matches(pattern@, text@),
        pattern@ == QUERY_PATTERN@ ==> parts_of(found) == Some(tokens_of(text@)),
{
    let compiled = regex::Regex::new(pattern).ok()?;
    Some(compiled.find_iter(text).map(|m| m.as_str()).collect())
}

/// The standard base64 text, with padding, of the UTF-8 bytes of `text`, as
/// `base64::encode` returns it.
pub uninterp spec fn base64_text(text: Seq<char>) -> Seq<char>;

/// Encodes the bytes of `text` with `base64::encode`. The contract gives
/// the result its name and claims nothing else of it.
#[verifier::external_body]
pub(crate) fn base64_encode(text: &str) -> (out: String)
    ensures
        out@ == base64_text(text@),
{
    base64::encode(text)
}

/// Why a selection from a document gave no list of values.
#[derive(Clone, Copy, Debug, PartialEq, Eq, Structural)]
pub enum SelectFailure {
    /// The document is not JSON.
    Document,
    /// The path expression was not accepted.
    Path,
    /// A selected value could not be written as text.
    Value,
}

/// Whether `serde_json::from_str` reads `document` as a JSON value.
pub uninterp spec fn json_parses(document: Seq<char>) -> bool;

/// Whether a selection failed on the document.
pub open spec fn is_unreadable(found: Result<Vec<String>, SelectFailure>) -> bool {
    found matches Err(SelectFailure::Document)
}

/// The values that the JSONPath expression `path` selects from the JSON
/// text `document`, each as compact JSON text, in the order in which
/// `jsonpath_lib::select` returns them.
pub uninterp spec fn json_select(document: Seq<char>, path: Seq<char>) -> Result<
    Seq<Seq<char>>,
    SelectFailure,
>;

/// The outcome of a selection with its texts as sequences of characters.
pub open spec fn texts_of(found: Result<Vec<String>, SelectFailure>) -> Result<
    Seq<Seq<char>>,
    SelectFailure,
> {
    match found {
        Ok(values) => Ok(values@.map_values(|t: String| t@)),
        Err(failure) => Err(failure),
    }
}

/// Whether the step that begins `s` is zero: up to the next `]` it holds
/// a `0` and no other digit. `zero` says whether a `0` was seen.
pub open spec fn zero_step(s: Seq<char>, zero: bool) -> bool
    decreases s.len(),
{
    if s.len() == 0 || s[0] == ']' {
        zero
    } else if '1' <= s[0] <= '9' {
        false
    } else {
        zero_step(s.skip(1), zero || s[0] == '0')
    }
}

/// Whether `path` holds a slice with a step of zero: a `:` that follows
/// another within one bracket and begins such a step. `open` says whether
/// a `:` was seen since the last `]`.
pub open spec fn has_zero_step(path: Seq<char>, open: bool) -> bool
    decreases path.len(),
{
    if path.len() == 0 {
        false
    } else if path[0] == ':' {
        (open && zero_step(path.skip(1), false)) || has_zero_step(path.skip(1), true)
    } else if path[0] == ']' {
        has_zero_step(path.skip(1), false)
    } else {
        has_zero_step(path.skip(1), open)
    }
}

/// Whether `c` may stand in a number or does not end one: an ASCII letter
/// or digit, a sign, a dot or a quote.
pub open spec fn is_word(c: char) -> bool {
    ('a' <= c <= 'z') || ('A' <= c <= 'Z') || ('0' <= c <= '9') || c == '.' || c == '+' || c
        == '-' || c == '\'' || c == '"'
}

/// Whether a number begins in `s` at `at`: a digit or a `-` that follows
/// no word character.
pub open spec fn starts_number(s: Seq<char>, at: int) -> bool {
    &&& 0 <= at < s.len()
    &&& ('0' <= s[at] <= '9') || s[at] == '-'
    &&& at == 0 || !is_word(s[at - 1])
}

/// Whether the word characters that begin `s` are at most `room` digits
/// and dots.
pub open spec fn plain_digits(s: Seq<char>, room: nat) -> bool
    decreases s.len(),
{
    if s.len() == 0 || !is_word(s[0]) {
        true
    } else if room == 0 || !(('0' <= s[0] <= '9') || s[0] == '.') {
        false
    } else {
        plain_digits(s.skip(1), (room - 1) as nat)
    }
}

/// Whether `filter`, the part of a path from its first `?`, is a plain
/// filter: it holds no `,`, `:`, `$` or `[`, and each number in it is
/// written with at most 300 digits and dots behind its first character.
pub open spec fn is_plain_filter(filter: Seq<char>) -> bool {
    &&& !filter.contains(',')
    &&& !filter.contains(':')
    &&& !filter.contains('$')
    &&& !filter.contains('[')
    &&& forall|at: int| #[trigger]
        starts_number(filter, at) ==> plain_digits(filter.skip(at + 1), 300)
}

/// Whether `path` is a plain path expression: one without a slice step of
/// zero and with a plain filter, if it has a filter at all. Only these
/// are handed to `jsonpath_lib`, which does not return on every other:
/// it panics on a step of zero, on a list of keys, a slice, a union, a
/// nested bracket or an absolute path within a filter, and on a number
/// in a filter that is not finite.
pub open spec fn is_plain_path(path: Seq<char>) -> bool {
    !has_zero_step(path, false) && is_plain_filter(path.skip(first_index_of(path, '?') as int))
}

/// Reads `document` with `serde_json::from_str`, selects from it with
/// `jsonpath_lib::select`, and writes each selected value with
/// `serde_json::to_string`. It fails with `Document` where, and only
/// where, the document is not read; with `Path` where the path is refused;
/// with `Value` where a value is not written. The contract gives the
/// outcome its name, and whether the document is read a name of its own.
#[verifier::external_body]
pub(crate) fn select_texts(document: &str, path: &str) -> (found: Result<
    Vec<String>,
    SelectFailure,
>)
    requires
        is_plain_path(path@),
    ensures
        texts_of(found) == json_select(document@, path@),
        is_unreadable(found) == !json_parses(document@),
{
    let value: serde_json::Value = serde_json::from_str(document).map_err(
        |_| SelectFailure::Document,
    )?;
    let selected = jsonpath_lib::select(&value, path).map_err(|_| SelectFailure::Path)?;
    let written = selected.into_iter().map(|v| serde_json::to_string(v));
    written.collect::<Result<Vec<String>, _>>().map_err(|_| SelectFailure::Value)
}

/// Whether `hyper::Uri::builder` builds a URI of a scheme, an authority
/// and a path with its query.
pub uninterp spec fn uri_accepts(
    scheme: Seq<char>,
    authority: Seq<char>,
    path_and_query: Seq<char>,
) -> bool;

/// Hands the three parts to `hyper::Uri::builder` and says whether `build`
/// gives a URI. The contract gives that answer its name and claims nothing
/// else of it.
#[verifier::external_body]
pub(crate) fn uri_accepted(scheme: &str, authority: &str, path_and_query: &str) -> (accepted: bool)
    ensures
        accepted == uri_accepts(scheme@, authority@, path_and_query@),
{
    let parts = hyper::Uri::builder().scheme(scheme).authority(authority);
    parts.path_and_query(path_and_query).build().is_ok()
}

/// Whether `hyper::header::HeaderName::from_bytes` accepts the bytes of
/// `name` as the name of a header.
pub uninterp spec fn header_name_accepts(name: Seq<char>) -> bool;

/// Whether `hyper::header::HeaderName::from_bytes` accepts the bytes of
/// `name`. The contract gives that answer its name and claims nothing else
/// of it.
#[verifier::external_body]
pub(crate) fn header_name_accepted(name: &str) -> (accepted: bool)
    ensures
        accepted == header_name_accepts(name@),
{
    hyper::header::HeaderName::from_bytes(name.as_bytes()).is_ok()
}

/// Whether `value` can be the value of a header: it holds no control
/// character but the tabulator.
pub open spec fn is_header_value(value: Seq<char>) -> bool {
    forall|i: int|
        0 <= i < value.len() ==> ((#[trigger] value[i]) >= ' ' && value[i] != '\u{7f}')
            || value[i] == '\t'
}

/// Whether `hyper::header::HeaderValue::from_str` accepts `value`. It
/// accepts a text each byte of which is 32 or more and not 127, or is the
/// tabulator; the bytes of a character beyond ASCII are all above 127.
#[verifier::external_body]
pub(crate) fn header_value_accepted(value: &str) -> (accepted: bool)
    ensures
        accepted == is_header_value(value@),
{
    hyper::header::HeaderValue::from_str(value).is_ok()
}

} // verus!
