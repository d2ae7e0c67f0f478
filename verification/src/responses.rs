//! Stored responses and the queries into them: a token of the form
//! `{response:name:path}` stands in a text for a value of the stored
//! response of the request `name`.

use crate::bridge::{base64_encode, base64_text, find_all, has_zero_step, is_plain_filter,
    is_plain_path, is_word, json_parses, json_select, pattern_matches, plain_digits,
    select_texts, starts_number, texts_of, zero_step, SelectFailure};
use crate::dict::{has_key, lookup, position, position_found, position_is_first, Dict, Entries};
use crate::error::{outcome, Error, ErrorView};
use crate::text::{chars_of, ends_with, first_index_of, first_index_of_is_first,
    first_occurrence, matches_at, replace_all, replace_chars, starts_with, string_of};
use vstd::prelude::*;
use vstd::string::StrSliceExecFns;

verus! {

/// The regular expression that finds the tokens of `tokens_of` in a text:
/// the opening `{response:` and all that follows up to the next `}`.
pub const QUERY_PATTERN: &'static str = "\\{response:[^}]*\\}";

/// What a query begins with.
pub open spec fn opening() -> Seq<char> {
    "{response:"@
}

/// What a query ends with.
pub open spec fn closing() -> Seq<char> {
    "}"@
}

/// Where the inside of the token `original` begins: behind the opening,
/// if it has one.
pub open spec fn inside_start(original: Seq<char>) -> int {
    if starts_with(original, opening()) {
        opening().len() as int
    } else {
        0
    }
}

/// Where the inside of the token `original` ends: before the closing, if
/// what follows the opening has one.
pub open spec fn inside_end(original: Seq<char>) -> int {
    if ends_with(original.skip(inside_start(original)), closing()) {
        original.len() - closing().len()
    } else {
        original.len() as int
    }
}

/// The token `original` without its opening and its closing.
pub open spec fn inside(original: Seq<char>) -> Seq<char> {
    original.subrange(inside_start(original), inside_end(original))
}

/// A response query as sequences of characters.
pub struct QueryView {
    pub original: Seq<char>,
    pub response: Seq<char>,
    pub query: Seq<char>,
}

/// The query that the token `original` stands for: the name of the response
/// is what stands inside before the first `:`, the path what stands behind
/// it. `None` where the inside holds no `:`.
pub open spec fn parse_token(original: Seq<char>) -> Option<QueryView> {
    let body = inside(original);
    let at = first_index_of(body, ':') as int;
    if at < body.len() {
        Some(QueryView { original, response: body.take(at), query: body.skip(at + 1) })
    } else {
        None
    }
}

/// The token that asks for what `path` selects from the response of
/// `name`.
pub open spec fn query_token(name: Seq<char>, path: Seq<char>) -> Seq<char> {
    opening() + name + seq![':'] + path + closing()
}

/// A token is read back as it was written: the name, where it holds no
/// `:`, and the path, which may hold any character.
pub proof fn token_reads_back(name: Seq<char>, path: Seq<char>)
    requires
        !name.contains(':'),
    ensures
        parse_token(query_token(name, path)) == Some(
            QueryView { original: query_token(name, path), response: name, query: path },
        ),
{
    reveal_strlit("{response:");
    reveal_strlit("}");
    let original = query_token(name, path);
    let open = opening().len() as int;
    assert(original.take(open) == opening());
    let rest = original.skip(open);
    assert(rest == name + seq![':'] + path + closing());
    assert(rest.skip(rest.len() - 1) == closing());
    let body = inside(original);
    assert(body == name + seq![':'] + path);
    first_index_of_is_first(body, ':');
    let at = first_index_of(body, ':') as int;
    if at < name.len() {
        assert(body[at] == name[at]);
        assert(name.contains(':'));
    }
    if at > name.len() {
        assert(body[name.len() as int] == ':');
    }
    assert(body.take(at) == name);
    assert(body.skip(at + 1) == path);
}

/// A token without a `:` behind its name stands for no query.
pub proof fn token_without_path_is_malformed(name: Seq<char>)
    requires
        !name.contains(':'),
    ensures
        parse_token(opening() + name + closing()) is None,
{
    reveal_strlit("{response:");
    reveal_strlit("}");
    let original = opening() + name + closing();
    let open = opening().len() as int;
    assert(original.take(open) == opening());
    let rest = original.skip(open);
    assert(rest == name + closing());
    assert(rest.skip(rest.len() - 1) == closing());
    let body = inside(original);
    assert(body == name);
    first_index_of_is_first(body, ':');
    let at = first_index_of(body, ':') as int;
    if at < body.len() {
        assert(name.contains(':'));
    }
}

/// The queries that the tokens stand for, in their order, or the first
/// token that stands for none.
pub open spec fn parse_tokens(tokens: Seq<Seq<char>>) -> Result<Seq<QueryView>, Seq<char>>
    decreases tokens.len(),
{
    if tokens.len() == 0 {
        Ok(Seq::empty())
    } else {
        match parse_tokens(tokens.drop_last()) {
            Err(bad) => Err(bad),
            Ok(queries) => match parse_token(tokens.last()) {
                None => Err(tokens.last()),
                Some(query) => Ok(queries.push(query)),
            },
        }
    }
}

/// The queries that the tokens stand for, or the error of the first token
/// that stands for none.
pub open spec fn read_tokens(tokens: Seq<Seq<char>>) -> Result<Seq<QueryView>, ErrorView> {
    match parse_tokens(tokens) {
        Err(bad) => Err(ErrorView::MalformedQuery(bad)),
        Ok(queries) => Ok(queries),
    }
}

/// The queries among the parts of `s` that `pattern` matches, or why they
/// cannot be told.
pub open spec fn queries_by(pattern: Seq<char>, s: Seq<char>) -> Result<Seq<QueryView>, ErrorView> {
    match pattern_matches(pattern, s) {
        None => Err(ErrorView::InvalidPattern),
        Some(tokens) => read_tokens(tokens),
    }
}

/// The tokens that a text holds, from left to right: each begins where
/// the opening first occurs behind the token before it, and ends with the
/// next `}`. An opening that no `}` follows begins no token.
pub open spec fn tokens_of(s: Seq<char>) -> Seq<Seq<char>>
    decreases s.len(),
{
    let start = first_occurrence(s, opening()) + opening().len();
    let close = first_index_of(s.skip(start as int), '}');
    let end = start + close + 1;
    if end <= s.len() {
        seq![s.subrange(start - opening().len(), end as int)] + tokens_of(s.skip(end as int))
    } else {
        Seq::empty()
    }
}

/// The queries that a text holds, or the error of the first token that
/// stands for none.
pub open spec fn queries_of(s: Seq<char>) -> Result<Seq<QueryView>, ErrorView> {
    read_tokens(tokens_of(s))
}

/// A text that is one token holds the one query of that token: the name,
/// where it holds neither `:` nor `}`, and the path, where it holds no `}`.
pub proof fn one_token_holds_one_query(name: Seq<char>, path: Seq<char>)
    requires
        !name.contains(':'),
        !name.contains('}'),
        !path.contains('}'),
    ensures
        queries_of(query_token(name, path)) == Ok::<Seq<QueryView>, ErrorView>(
            seq![QueryView { original: query_token(name, path), response: name, query: path }],
        ),
{
    reveal_strlit("{response:");
    reveal_strlit("}");
    let text = query_token(name, path);
    assert(text.take(opening().len() as int) == opening());
    assert(first_occurrence(text, opening()) == 0);
    let start = opening().len() as int;
    let rest = text.skip(start);
    assert(rest == name + seq![':'] + path + closing());
    first_index_of_is_first(rest, '}');
    let close = first_index_of(rest, '}') as int;
    let last = rest.len() - 1;
    assert(rest[last] == '}');
    if close < last {
        if close < name.len() {
            assert(rest[close] == name[close]);
            assert(name.contains('}'));
        } else if close > name.len() {
            assert(rest[close] == path[close - name.len() - 1]);
            assert(path.contains('}'));
        } else {
            assert(rest[close] == ':');
        }
    }
    assert(close == last);
    let end = start + close + 1;
    assert(end == text.len());
    assert(text.subrange(0, end) == text);
    assert(text.skip(end) == Seq::<char>::empty());
    assert(tokens_of(Seq::<char>::empty()) == Seq::<Seq<char>>::empty());
    assert(tokens_of(text) == seq![text]);
    token_reads_back(name, path);
    let tokens = seq![text];
    assert(tokens.drop_last() == Seq::<Seq<char>>::empty());
    assert(parse_tokens(tokens.drop_last()) == Ok::<Seq<QueryView>, Seq<char>>(Seq::empty()));
    assert(tokens.last() == text);
    assert(Seq::<QueryView>::empty().push(
        QueryView { original: text, response: name, query: path },
    ) == seq![QueryView { original: text, response: name, query: path }]);
}

/// The empty text holds no query.
pub proof fn empty_text_holds_no_query()
    ensures
        queries_of(Seq::empty()) == Ok::<Seq<QueryView>, ErrorView>(Seq::empty()),
{
    reveal_strlit("{response:");
    assert(tokens_of(Seq::empty()) == Seq::<Seq<char>>::empty());
}

/// A reference to a value of a stored response.
#[derive(Debug, PartialEq)]
pub struct ResponseQuery<'a> {
    /// The query as it stands in the text.
    pub original: &'a str,
    /// The name of the request whose response is asked.
    pub response: &'a str,
    /// The path expression into that response.
    pub query: &'a str,
}

impl<'a> View for ResponseQuery<'a> {
    type V = QueryView;

    open spec fn view(&self) -> QueryView {
        QueryView { original: self.original@, response: self.response@, query: self.query@ }
    }
}

/// The views of a list of queries.
pub open spec fn views_of(queries: Seq<ResponseQuery>) -> Seq<QueryView> {
    queries.map_values(|q: ResponseQuery| q@)
}

/// The outcome of reading queries, with the queries and the error taken
/// by their views.
pub open spec fn read(out: Result<Vec<ResponseQuery>, Error>) -> Result<
    Seq<QueryView>,
    ErrorView,
> {
    match out {
        Ok(queries) => Ok(views_of(queries@)),
        Err(e) => Err(e@),
    }
}

impl<'a> ResponseQuery<'a> {
    /// Reads one token. The token fails as malformed where its inside
    /// holds no `:`.
    pub fn parse(original: &'a str) -> (out: Result<ResponseQuery<'a>, Error>)
        ensures
            match out {
                Ok(query) => parse_token(original@) == Some(query@),
                Err(e) => parse_token(original@) is None && e@ == ErrorView::MalformedQuery(
                    original@,
                ),
            },
    {
        let chars = chars_of(original);
        let open = chars_of("{response:");
        let n = chars.len();
        let start: usize = if matches_at(&chars, 0, &open) {
            open.len()
        } else {
            0
        };
        proof {
            reveal_strlit("}");
            assert(chars@.skip(0) == chars@);
            assert(start == inside_start(original@));
            let rest = original@.skip(start as int);
            if rest.len() >= 1 {
                assert(rest.skip(rest.len() - 1) == seq![rest[rest.len() - 1]]);
                assert(rest[rest.len() - 1] == chars@[n - 1]);
                assert(closing() == seq!['}']);
                assert(ends_with(rest, closing()) <==> chars@[n - 1] == '}') by {
                    if chars@[n - 1] == '}' {
                        assert(seq![rest[rest.len() - 1]] == seq!['}']);
                    } else {
                        assert(seq![rest[rest.len() - 1]][0] != seq!['}'][0]);
                    }
                }
            }
        }
        let end: usize = if n > start && chars[n - 1] == '}' {
            n - 1
        } else {
            n
        };
        assert(end == inside_end(original@));
        let ghost body = inside(original@);
        let mut at: usize = start;
        while at < end && chars[at] != ':'
            invariant
                start <= at <= end <= n,
                n == chars.len(),
                chars@ == original@,
                body == original@.subrange(start as int, end as int),
                forall|j: int| 0 <= j < at - start ==> body[j] != ':',
            decreases end - at,
        {
            at = at + 1;
        }
        proof {
            first_index_of_is_first(body, ':');
            let first = first_index_of(body, ':');
            if at < end {
                assert(body[at - start] == ':');
                if first < at - start {
                }
            } else {
                if first < body.len() {
                }
            }
            assert(first == at - start);
        }
        if at == end {
            return Err(Error::MalformedQuery(original.to_owned()));
        }
        let response = original.substring_char(start, at);
        let query = original.substring_char(at + 1, end);
        proof {
            assert(body.take(at - start) == original@.subrange(start as int, at as int));
            assert(body.skip(at - start + 1) == original@.subrange(at + 1, end as int));
        }
        Ok(ResponseQuery { original, response, query })
    }

    /// Reads each token in turn, and fails with the first that is
    /// malformed.
    pub fn from_tokens(tokens: &Vec<&'a str>) -> (out: Result<Vec<ResponseQuery<'a>>, Error>)
        ensures
            read(out) == read_tokens(tokens@.map_values(|t: &str| t@)),
    {
        let ghost texts = tokens@.map_values(|t: &str| t@);
        let mut queries: Vec<ResponseQuery<'a>> = Vec::new();
        let mut i: usize = 0;
        proof {
            assert(views_of(queries@) == Seq::<QueryView>::empty());
        }
        while i < tokens.len()
            invariant
                i <= tokens.len(),
                texts == tokens@.map_values(|t: &str| t@),
                parse_tokens(texts.take(i as int)) == Ok::<Seq<QueryView>, Seq<char>>(
                    views_of(queries@),
                ),
            decreases tokens.len() - i,
        {
            proof {
                assert(texts.take(i + 1).drop_last() == texts.take(i as int));
                assert(texts.take(i + 1).last() == tokens@[i as int]@);
            }
            match ResponseQuery::parse(tokens[i]) {
                Ok(query) => {
                    proof {
                        assert(views_of(queries@.push(query)) == views_of(queries@).push(query@));
                    }
                    queries.push(query);
                },
                Err(e) => {
                    proof {
                        parse_tokens_fails_on(texts, i as int);
                    }
                    return Err(e);
                },
            }
            i = i + 1;
        }
        proof {
            assert(texts.take(tokens.len() as int) == texts);
        }
        Ok(queries)
    }

    /// Reads as queries the parts of `s` that the regular expression
    /// `pattern` matches, from left to right. Fails with `InvalidPattern`
    /// where `pattern` is no regular expression.
    pub fn from_pattern(pattern: &str, s: &'a str) -> (out: Result<Vec<ResponseQuery<'a>>, Error>)
        ensures
            read(out) == queries_by(pattern@, s@),
    {
        match find_all(pattern, s) {
            None => Err(Error::InvalidPattern),
            Some(tokens) => ResponseQuery::from_tokens(&tokens),
        }
    }

    /// Searches the string for all the response queries that it holds, from
    /// left to right. A response query has the form
    /// `{response:[name]:[jsonpath]}`: the name is that of the request
    /// whose response is meant, the jsonpath (such as `$.child.id`) says
    /// which of its values.
    pub fn from(s: &'a str) -> (out: Result<Vec<ResponseQuery<'a>>, Error>)
        ensures
            read(out) == queries_of(s@),
    {
        match find_all(QUERY_PATTERN, s) {
            Some(tokens) => ResponseQuery::from_tokens(&tokens),
            None => Err(Error::InvalidPattern),
        }
    }
}

/// What a selection gives for one query into the response `response` by
/// the path `path`: the first of the selected values, and an error where
/// there is none.
pub open spec fn picked(
    found: Result<Seq<Seq<char>>, SelectFailure>,
    response: Seq<char>,
    path: Seq<char>,
) -> Result<Seq<char>, ErrorView> {
    match found {
        Err(SelectFailure::Document) => Err(ErrorView::InvalidResponse(response)),
        Err(SelectFailure::Value) => Err(ErrorView::InvalidResponse(response)),
        Err(SelectFailure::Path) => Err(ErrorView::InvalidPath(path)),
        Ok(values) => if values.len() == 0 {
            Err(ErrorView::QueryNotFound(path))
        } else {
            Ok(values[0])
        },
    }
}

/// The text that stands for `query`, given the stored responses. A path
/// that is not plain is not evaluated.
pub open spec fn answer(contents: Entries, query: QueryView) -> Result<Seq<char>, ErrorView> {
    match lookup(contents, query.response) {
        None => Err(ErrorView::NotLoaded(query.response)),
        Some(document) => if is_plain_path(query.query) {
            picked(json_select(document, query.query), query.response, query.query)
        } else {
            Err(ErrorView::UnsupportedPath(query.query))
        },
    }
}

/// `s` after each query, in order, gave way to its answer wherever its
/// original text occurs; the error of the first query that has no answer.
pub open spec fn substitute(
    contents: Entries,
    queries: Seq<QueryView>,
    s: Seq<char>,
) -> Result<Seq<char>, ErrorView>
    decreases queries.len(),
{
    if queries.len() == 0 {
        Ok(s)
    } else {
        match substitute(contents, queries.drop_last(), s) {
            Err(e) => Err(e),
            Ok(text) => match answer(contents, queries.last()) {
                Err(e) => Err(e),
                Ok(value) => Ok(replace_all(text, queries.last().original, value)),
            },
        }
    }
}

/// `s` with its response queries answered from the stored responses.
pub open spec fn apply_responses(contents: Entries, s: Seq<char>) -> Result<Seq<char>, ErrorView> {
    match queries_of(s) {
        Err(e) => Err(e),
        Ok(queries) => substitute(contents, queries, s),
    }
}

/// The stored responses after the response of `name` was offered: there
/// is one more, unless one was held under that name already or the
/// document is not JSON.
pub open spec fn after_load(contents: Entries, name: Seq<char>, document: Seq<char>) -> Entries {
    if has_key(contents, name) || !json_parses(document) {
        contents
    } else {
        contents.push((name, document))
    }
}

/// What offering the response of `name` gives: nothing to report where it
/// is held already or is taken in, and an error where it is not JSON.
pub open spec fn load_outcome(contents: Entries, name: Seq<char>, document: Seq<char>) -> Result<
    (),
    ErrorView,
> {
    if has_key(contents, name) || json_parses(document) {
        Ok(())
    } else {
        Err(ErrorView::InvalidResponse(name))
    }
}

/// Whether every document of `contents` is JSON.
pub open spec fn all_parse(contents: Entries) -> bool {
    forall|i: int| 0 <= i < contents.len() ==> json_parses((#[trigger] contents[i]).1)
}

/// A response is held after it was offered where it was held before or
/// is JSON, and only then; offering it has changed no response that was
/// held before.
pub proof fn load_keeps_what_is_held(contents: Entries, name: Seq<char>, document: Seq<char>)
    ensures
        has_key(after_load(contents, name, document), name) == (has_key(contents, name)
            || json_parses(document)),
        forall|other: Seq<char>| #[trigger]
            has_key(contents, other) ==> lookup(after_load(contents, name, document), other)
                == lookup(contents, other),
{
    let after = after_load(contents, name, document);
    position_is_first(contents, name);
    if !has_key(contents, name) && json_parses(document) {
        assert forall|j: int| 0 <= j < contents.len() implies (#[trigger] after[j]).0 != name by {
            assert(after[j] == contents[j]);
        }
        position_found(after, name, contents.len() as int);
        assert forall|other: Seq<char>| #[trigger] has_key(contents, other) implies lookup(
            after,
            other,
        ) == lookup(contents, other) by {
            position_is_first(contents, other);
            let at = position(contents, other);
            assert forall|j: int| 0 <= j < at implies (#[trigger] after[j]).0 != other by {
                assert(after[j] == contents[j]);
            }
            assert(after[at] == contents[at]);
            position_found(after, other, at);
        }
    }
}

/// Whether an outcome asks for the response of `name` to be loaded.
pub open spec fn asks_for<T>(out: Result<T, ErrorView>, name: Seq<char>) -> bool {
    out == Err::<T, ErrorView>(ErrorView::NotLoaded(name))
}

/// Applying never asks for a response that the store holds.
pub proof fn held_response_is_not_asked_for(contents: Entries, name: Seq<char>, s: Seq<char>)
    requires
        has_key(contents, name),
    ensures
        !asks_for(apply_responses(contents, s), name),
{
    match queries_of(s) {
        Err(e) => {},
        Ok(queries) => {
            substitute_asks_for_missing_only(contents, queries, s, name);
        },
    }
}

/// Substituting never asks for a response that the store holds.
proof fn substitute_asks_for_missing_only(
    contents: Entries,
    queries: Seq<QueryView>,
    s: Seq<char>,
    name: Seq<char>,
)
    requires
        has_key(contents, name),
    ensures
        !asks_for(substitute(contents, queries, s), name),
    decreases queries.len(),
{
    if queries.len() > 0 {
        substitute_asks_for_missing_only(contents, queries.drop_last(), s, name);
    }
}

/// Each response is loaded at most once: no text makes the store ask for
/// a response that it holds, whatever else is offered to it afterwards.
pub proof fn loaded_once(contents: Entries, name: Seq<char>, later: Entries, s: Seq<char>)
    requires
        has_key(contents, name),
    ensures
        !asks_for(apply_responses(after_loads(contents, later), s), name),
{
    loads_keep_what_is_held(contents, later, name);
    held_response_is_not_asked_for(after_loads(contents, later), name, s);
}

/// The stored responses after each of `later` was offered, in order.
pub open spec fn after_loads(contents: Entries, later: Entries) -> Entries
    decreases later.len(),
{
    if later.len() == 0 {
        contents
    } else {
        after_load(after_loads(contents, later.drop_last()), later.last().0, later.last().1)
    }
}

/// What is held stays held, with its text, through any further loads.
pub proof fn loads_keep_what_is_held(contents: Entries, later: Entries, name: Seq<char>)
    requires
        has_key(contents, name),
    ensures
        has_key(after_loads(contents, later), name),
        lookup(after_loads(contents, later), name) == lookup(contents, name),
    decreases later.len(),
{
    if later.len() > 0 {
        loads_keep_what_is_held(contents, later.drop_last(), name);
        load_keeps_what_is_held(
            after_loads(contents, later.drop_last()),
            later.last().0,
            later.last().1,
        );
    }
}

/// The responses of earlier requests, each under the name of its request
/// and held as the JSON text that was received.
pub struct Responses {
    path: String,
    contents: Dict<String>,
}

impl View for Responses {
    type V = Entries;

    closed spec fn view(&self) -> Entries {
        self.contents@
    }
}

/// Whether `c` is a word character.
fn word_char(c: char) -> (out: bool)
    ensures
        out == is_word(c),
{
    ('a' <= c && c <= 'z') || ('A' <= c && c <= 'Z') || ('0' <= c && c <= '9') || c == '.' || c
        == '+' || c == '-' || c == '\'' || c == '"'
}

/// Whether the step that begins at `from` is zero.
fn step_is_zero(chars: &Vec<char>, from: usize) -> (out: bool)
    requires
        from <= chars.len(),
    ensures
        out == zero_step(chars@.skip(from as int), false),
{
    let mut zero = false;
    let mut j: usize = from;
    while j < chars.len()
        invariant
            from <= j <= chars.len(),
            zero_step(chars@.skip(from as int), false) == zero_step(chars@.skip(j as int), zero),
        decreases chars.len() - j,
    {
        let c = chars[j];
        proof {
            assert(chars@.skip(j as int)[0] == c);
            assert(chars@.skip(j as int).skip(1) == chars@.skip(j + 1));
        }
        if c == ']' {
            return zero;
        }
        if '1' <= c && c <= '9' {
            return false;
        }
        if c == '0' {
            zero = true;
        }
        j = j + 1;
    }
    zero
}

/// Whether no slice of the path has a step of zero.
fn no_zero_step(chars: &Vec<char>) -> (out: bool)
    ensures
        out == !has_zero_step(chars@, false),
{
    let mut open = false;
    let mut i: usize = 0;
    proof {
        assert(chars@.skip(0) == chars@);
    }
    while i < chars.len()
        invariant
            i <= chars.len(),
            has_zero_step(chars@, false) == has_zero_step(chars@.skip(i as int), open),
        decreases chars.len() - i,
    {
        let c = chars[i];
        proof {
            assert(chars@.skip(i as int)[0] == c);
            assert(chars@.skip(i as int).skip(1) == chars@.skip(i + 1));
        }
        if c == ':' {
            if open && step_is_zero(chars, i + 1) {
                return false;
            }
            open = true;
        } else if c == ']' {
            open = false;
        }
        i = i + 1;
    }
    true
}

/// Whether the word characters from `from` on are at most 300 digits and
/// dots.
fn digits_are_plain(chars: &Vec<char>, from: usize) -> (out: bool)
    requires
        from <= chars.len(),
    ensures
        out == plain_digits(chars@.skip(from as int), 300),
{
    let mut room: usize = 300;
    let mut j: usize = from;
    while j < chars.len()
        invariant
            from <= j <= chars.len(),
            plain_digits(chars@.skip(from as int), 300) == plain_digits(
                chars@.skip(j as int),
                room as nat,
            ),
        decreases chars.len() - j,
    {
        let c = chars[j];
        proof {
            assert(chars@.skip(j as int)[0] == c);
            assert(chars@.skip(j as int).skip(1) == chars@.skip(j + 1));
        }
        if !word_char(c) {
            return true;
        }
        if room == 0 || !(('0' <= c && c <= '9') || c == '.') {
            return false;
        }
        room = room - 1;
        j = j + 1;
    }
    true
}

/// Whether the part of the path from `from` on is a plain filter.
fn filter_is_plain(chars: &Vec<char>, from: usize) -> (out: bool)
    requires
        from <= chars.len(),
    ensures
        out == is_plain_filter(chars@.skip(from as int)),
{
    let ghost filter = chars@.skip(from as int);
    let mut i: usize = from;
    while i < chars.len()
        invariant
            from <= i <= chars.len(),
            filter == chars@.skip(from as int),
            forall|k: int|
                0 <= k < i - from ==> filter[k] != ',' && filter[k] != ':' && filter[k] != '$'
                    && filter[k] != '[',
            forall|at: int|
                0 <= at < i - from && #[trigger] starts_number(filter, at) ==> plain_digits(
                    filter.skip(at + 1),
                    300,
                ),
        decreases chars.len() - i,
    {
        let c = chars[i];
        let ghost at = i - from;
        proof {
            assert(filter[at] == c);
        }
        if c == ',' || c == ':' || c == '$' || c == '[' {
            proof {
                assert(filter.contains(c));
            }
            return false;
        }
        if (('0' <= c && c <= '9') || c == '-') && (i == from || !word_char(chars[i - 1])) {
            proof {
                if i > from {
                    assert(filter[at - 1] == chars@[i - 1]);
                }
                assert(starts_number(filter, at));
                assert(filter.skip(at + 1) == chars@.skip(i + 1));
            }
            if !digits_are_plain(chars, i + 1) {
                return false;
            }
        } else {
            proof {
                if i > from {
                    assert(filter[at - 1] == chars@[i - 1]);
                }
                assert(!starts_number(filter, at));
            }
        }
        i = i + 1;
    }
    true
}

impl Responses {
    #[verifier::type_invariant]
    spec fn documents_parse(self) -> bool {
        all_parse(self.contents@)
    }

    /// The directory in which the responses are kept.
    pub closed spec fn location(&self) -> Seq<char> {
        self.path@
    }

    /// A store for the responses kept in the directory `path`. It holds
    /// none of them yet.
    pub fn new(path: String) -> (out: Self)
        ensures
            out@ == Seq::<(Seq<char>, Seq<char>)>::empty(),
            out.location() == path@,
    {
        Responses { path, contents: Dict::new() }
    }

    /// The directory in which the responses are kept.
    pub fn path(&self) -> (out: &String)
        ensures
            out@ == self.location(),
    {
        &self.path
    }

    /// The name of the file, within the directory, that keeps the response
    /// of the request `name`.
    pub fn file_name(name: &str) -> (out: String)
        ensures
            out@ == base64_text(name@),
    {
        base64_encode(name)
    }

    /// Whether the store holds the response of the request `name`.
    pub fn is_loaded(&self, name: &str) -> (held: bool)
        ensures
            held == has_key(self@, name@),
    {
        self.contents.contains_key(name)
    }

    /// The stored text of the response of the request `name`, which is
    /// JSON.
    pub fn get(&self, name: &str) -> (out: Option<&String>)
        ensures
            all_parse(self@),
            match out {
                Some(document) => lookup(self@, name@) == Some(document@),
                None => lookup(self@, name@) is None,
            },
    {
        proof {
            use_type_invariant(self);
        }
        self.contents.get(name)
    }

    /// Takes in the response of the request `name` as it was read. A
    /// response that the store holds already stays as it is: each is taken
    /// in once. A document that is not JSON is refused, and the store
    /// stays as it was.
    pub fn load(&mut self, name: String, document: String) -> (out: Result<(), Error>)
        ensures
            final(self).location() == old(self).location(),
            final(self)@ == after_load(old(self)@, name@, document@),
            outcome(out) == load_outcome(old(self)@, name@, document@),
    {
        proof {
            use_type_invariant(&*self);
        }
        if self.contents.contains_key(name.as_str()) {
            return Ok(());
        }
        proof {
            reveal_strlit("$");
            let root = "$"@;
            assert(root.skip(1) == Seq::<char>::empty());
            assert(!has_zero_step(root.skip(1), false));
            assert(!has_zero_step(root, false));
            assert(first_index_of(root.skip(1), '?') == 0);
            assert(first_index_of(root, '?') == 1);
            assert(is_plain_filter(Seq::<char>::empty()));
        }
        match select_texts(document.as_str(), "$") {
            Err(SelectFailure::Document) => Err(Error::InvalidResponse(name)),
            _ => {
                let ghost before = self.contents@;
                let mut contents: Dict<String> = Dict::new();
                core::mem::swap(&mut self.contents, &mut contents);
                contents.insert(name, document);
                proof {
                    assert forall|i: int| 0 <= i < contents@.len() implies json_parses(
                        (#[trigger] contents@[i]).1,
                    ) by {
                        if i < before.len() {
                            assert(contents@[i] == before[i]);
                        }
                    }
                }
                core::mem::swap(&mut self.contents, &mut contents);
                Ok(())
            },
        }
    }

    /// Whether `path` is a plain path expression: one without a slice step
    /// of zero and, if it has a filter, with a plain one.
    pub fn path_is_plain(path: &str) -> (plain: bool)
        ensures
            plain == is_plain_path(path@),
    {
        let chars = chars_of(path);
        let mut start: usize = 0;
        while start < chars.len() && chars[start] != '?'
            invariant
                start <= chars.len(),
                forall|j: int| 0 <= j < start ==> chars@[j] != '?',
            decreases chars.len() - start,
        {
            start = start + 1;
        }
        proof {
            first_index_of_is_first(chars@, '?');
            let first = first_index_of(chars@, '?');
            if first < start {
            } else if start < first {
            }
            assert(first == start);
        }
        no_zero_step(&chars) && filter_is_plain(&chars, start)
    }

    /// Turns the outcome of a selection into the text that takes the place
    /// of a query: the first selected value. A selection without values is
    /// an error, not an empty text.
    pub fn pick(
        found: Result<Vec<String>, SelectFailure>,
        response: &str,
        path: &str,
    ) -> (out: Result<String, Error>)
        ensures
            outcome(out) == picked(texts_of(found), response@, path@),
    {
        match found {
            Err(SelectFailure::Document) => Err(Error::InvalidResponse(response.to_owned())),
            Err(SelectFailure::Value) => Err(Error::InvalidResponse(response.to_owned())),
            Err(SelectFailure::Path) => Err(Error::InvalidPath(path.to_owned())),
            Ok(values) => {
                if values.len() == 0 {
                    Err(Error::QueryNotFound(path.to_owned()))
                } else {
                    Ok(values[0].clone())
                }
            },
        }
    }

    /// Apply any response queries to the given string: each query gives
    /// way to the value that its path selects from the stored response it
    /// names. If the path selects more than one value, the first is used;
    /// that value may well be an array. A query into a response that the
    /// store does not hold fails with `NotLoaded` and the name, so that
    /// the caller can load it and apply again.
    pub fn apply(&self, s: &str) -> (out: Result<String, Error>)
        ensures
            outcome(out) == apply_responses(self@, s@),
    {
        let queries = match ResponseQuery::from(s) {
            Ok(queries) => queries,
            Err(e) => {
                return Err(e);
            },
        };
        let ghost all = views_of(queries@);
        let mut current = chars_of(s);
        let mut i: usize = 0;
        while i < queries.len()
            invariant
                i <= queries.len(),
                all == views_of(queries@),
                queries_of(s@) == Ok::<Seq<QueryView>, ErrorView>(all),
                substitute(self@, all.take(i as int), s@) == Ok::<Seq<char>, ErrorView>(
                    current@,
                ),
            decreases queries.len() - i,
        {
            let query = &queries[i];
            proof {
                assert(all.take(i + 1).drop_last() == all.take(i as int));
                assert(all.take(i + 1).last() == query@);
            }
            let document = match self.contents.get(query.response) {
                Some(document) => document,
                None => {
                    proof {
                        substitute_keeps_failure(self@, all, s@, i + 1);
                    }
                    return Err(Error::NotLoaded(query.response.to_owned()));
                },
            };
            if !Responses::path_is_plain(query.query) {
                proof {
                    substitute_keeps_failure(self@, all, s@, i + 1);
                }
                return Err(Error::UnsupportedPath(query.query.to_owned()));
            }
            let found = select_texts(document.as_str(), query.query);
            match Responses::pick(found, query.response, query.query) {
                Ok(value) => {
                    let from = chars_of(query.original);
                    let to = chars_of(value.as_str());
                    current = replace_chars(&current, &from, &to);
                },
                Err(e) => {
                    proof {
                        substitute_keeps_failure(self@, all, s@, i + 1);
                    }
                    return Err(e);
                },
            }
            i = i + 1;
        }
        proof {
            assert(all.take(queries.len() as int) == all);
        }
        Ok(string_of(&current))
    }
}

/// A failure on the first queries is the failure on all of them.
proof fn substitute_keeps_failure(
    contents: Entries,
    queries: Seq<QueryView>,
    s: Seq<char>,
    upto: int,
)
    requires
        0 <= upto <= queries.len(),
        substitute(contents, queries.take(upto), s) is Err,
    ensures
        substitute(contents, queries, s) == substitute(contents, queries.take(upto), s),
    decreases queries.len() - upto,
{
    if upto == queries.len() {
        assert(queries.take(upto) == queries);
    } else {
        assert(queries.take(upto + 1).drop_last() == queries.take(upto));
        substitute_keeps_failure(contents, queries, s, upto + 1);
    }
}

/// Where the tokens before `at` are read and the one at `at` is not, the
/// whole list fails with that token.
proof fn parse_tokens_fails_on(tokens: Seq<Seq<char>>, at: int)
    requires
        0 <= at < tokens.len(),
        parse_tokens(tokens.take(at)) is Ok,
        parse_token(tokens[at]) is None,
    ensures
        parse_tokens(tokens) == Err::<Seq<QueryView>, Seq<char>>(tokens[at]),
    decreases tokens.len() - at,
{
    assert(tokens.take(at + 1).drop_last() == tokens.take(at));
    assert(tokens.take(at + 1).last() == tokens[at]);
    parse_tokens_keeps_failure(tokens, at + 1);
}

/// A failure on a prefix of the tokens is the failure on all of them.
proof fn parse_tokens_keeps_failure(tokens: Seq<Seq<char>>, upto: int)
    requires
        0 <= upto <= tokens.len(),
        parse_tokens(tokens.take(upto)) is Err,
    ensures
        parse_tokens(tokens) == parse_tokens(tokens.take(upto)),
    decreases tokens.len() - upto,
{
    if upto == tokens.len() {
        assert(tokens.take(upto) == tokens);
    } else {
        assert(tokens.take(upto + 1).drop_last() == tokens.take(upto));
        parse_tokens_keeps_failure(tokens, upto + 1);
    }
}

} // verus!
