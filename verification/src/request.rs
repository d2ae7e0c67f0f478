//! A request as it is written down, and what is made of it before it is
//! sent.

use crate::bridge::{header_name_accepted, header_name_accepts, header_value_accepted,
    is_header_value, uri_accepted, uri_accepts};
use crate::dict::{has_key, put, Dict, Entries};
use crate::environment::{apply_all, entries_of, ApplyEnvironment, Environment};
use crate::error::{outcome, Error, ErrorView};
use crate::responses::{apply_responses, asks_for, held_response_is_not_asked_for, Responses};
use crate::text::{ascii_uppercase, chars_of, string_of, uppercase_chars};
use vstd::prelude::*;
use vstd::string::StringExecFns;

verus! {

/// The scheme of a request that names none.
pub fn default_scheme() -> (out: String)
    ensures
        out@ == "http"@,
{
    String::from_str("http")
}

/// The path of a request that names none.
pub fn default_path() -> (out: String)
    ensures
        out@ == "/"@,
{
    String::from_str("/")
}

/// What a request sends along.
#[derive(Debug)]
pub enum Body {
    /// The content of the file at `path`.
    File { path: String, content_type: String },
    /// The text `body` itself.
    String { body: String, content_type: String },
}

/// A `Body` with its texts as sequences of characters.
pub enum BodyView {
    File { path: Seq<char>, content_type: Seq<char> },
    String { body: Seq<char>, content_type: Seq<char> },
}

impl View for Body {
    type V = BodyView;

    open spec fn view(&self) -> BodyView {
        match self {
            Body::File { path, content_type } => BodyView::File {
                path: path@,
                content_type: content_type@,
            },
            Body::String { body, content_type } => BodyView::String {
                body: body@,
                content_type: content_type@,
            },
        }
    }
}

impl Clone for Body {
    fn clone(&self) -> (out: Self)
        ensures
            out@ == self@,
    {
        match self {
            Body::File { path, content_type } => Body::File {
                path: path.clone(),
                content_type: content_type.clone(),
            },
            Body::String { body, content_type } => Body::String {
                body: body.clone(),
                content_type: content_type.clone(),
            },
        }
    }
}

impl Body {
    /// The content type that the body declares.
    pub fn content_type(&self) -> (out: &String)
        ensures
            out@ == content_type_of(self@),
    {
        match self {
            Body::File { content_type, .. } => content_type,
            Body::String { content_type, .. } => content_type,
        }
    }
}

/// The content type that a body declares.
pub open spec fn content_type_of(body: BodyView) -> Seq<char> {
    match body {
        BodyView::File { content_type, .. } => content_type,
        BodyView::String { content_type, .. } => content_type,
    }
}

/// A request as it is written down: its texts may hold tokens that are
/// yet to be filled in.
#[derive(Debug)]
pub struct Request {
    method: String,
    scheme: String,
    host: String,
    path: String,
    headers: Dict<String>,
    query: Dict<String>,
    body: Option<Body>,
}

/// A `Request` with its texts as sequences of characters.
pub struct RequestView {
    pub method: Seq<char>,
    pub scheme: Seq<char>,
    pub host: Seq<char>,
    pub path: Seq<char>,
    pub headers: Entries,
    pub query: Entries,
    pub body: Option<BodyView>,
}

/// The view of a body that may be missing.
pub open spec fn body_view(body: Option<Body>) -> Option<BodyView> {
    match body {
        Some(b) => Some(b@),
        None => None,
    }
}

impl View for Request {
    type V = RequestView;

    closed spec fn view(&self) -> RequestView {
        RequestView {
            method: self.method@,
            scheme: self.scheme@,
            host: self.host@,
            path: self.path@,
            headers: self.headers@,
            query: self.query@,
            body: body_view(self.body),
        }
    }
}

/// The entries of a mapping after the environments were applied to each
/// key and each value. Where two keys become the same, the later value
/// stands in the place of the earlier.
pub open spec fn fill_entries(envs: Seq<Entries>, entries: Entries) -> Entries
    decreases entries.len(),
{
    if entries.len() == 0 {
        Seq::empty()
    } else {
        put(
            fill_entries(envs, entries.drop_last()),
            apply_all(envs, entries.last().0),
            apply_all(envs, entries.last().1),
        )
    }
}

/// The request after the environments were applied to its scheme, host
/// and path and to the keys and values of its headers and of its query
/// parameters.
pub open spec fn with_environment(envs: Seq<Entries>, r: RequestView) -> RequestView {
    RequestView {
        method: r.method,
        scheme: apply_all(envs, r.scheme),
        host: apply_all(envs, r.host),
        path: apply_all(envs, r.path),
        headers: fill_entries(envs, r.headers),
        query: fill_entries(envs, r.query),
        body: r.body,
    }
}

/// The entries of a mapping after the response queries in each key and
/// each value were answered, or the first error on the way.
pub open spec fn answer_entries(contents: Entries, entries: Entries) -> Result<Entries, ErrorView>
    decreases entries.len(),
{
    if entries.len() == 0 {
        Ok(Seq::empty())
    } else {
        match answer_entries(contents, entries.drop_last()) {
            Err(e) => Err(e),
            Ok(done) => match apply_responses(contents, entries.last().0) {
                Err(e) => Err(e),
                Ok(key) => match apply_responses(contents, entries.last().1) {
                    Err(e) => Err(e),
                    Ok(value) => Ok(put(done, key, value)),
                },
            },
        }
    }
}

/// The request after its response queries were answered from the stored
/// responses: in its scheme, host and path, then in its headers, then in
/// its query parameters. The first error on the way is the outcome.
pub open spec fn with_responses(contents: Entries, r: RequestView) -> Result<
    RequestView,
    ErrorView,
> {
    match apply_responses(contents, r.scheme) {
        Err(e) => Err(e),
        Ok(scheme) => match apply_responses(contents, r.host) {
            Err(e) => Err(e),
            Ok(host) => match apply_responses(contents, r.path) {
                Err(e) => Err(e),
                Ok(path) => match answer_entries(contents, r.headers) {
                    Err(e) => Err(e),
                    Ok(headers) => match answer_entries(contents, r.query) {
                        Err(e) => Err(e),
                        Ok(query) => Ok(
                            RequestView {
                                method: r.method,
                                scheme,
                                host,
                                path,
                                headers,
                                query,
                                body: r.body,
                            },
                        ),
                    },
                },
            },
        }
    }
}

/// Whether `name` is one of the HTTP verbs: `GET`, `HEAD`, `POST`, `PUT`,
/// `DELETE`, `CONNECT`, `OPTIONS`, `TRACE` or `PATCH`.
pub open spec fn is_http_verb(name: Seq<char>) -> bool {
    name == "GET"@ || name == "HEAD"@ || name == "POST"@ || name == "PUT"@ || name == "DELETE"@
        || name == "CONNECT"@ || name == "OPTIONS"@ || name == "TRACE"@ || name == "PATCH"@
}

/// The method as it is sent: in upper case, and an error where that is
/// none of the HTTP verbs.
pub open spec fn method_sent(method: Seq<char>) -> Result<Seq<char>, ErrorView> {
    if is_http_verb(ascii_uppercase(method)) {
        Ok(ascii_uppercase(method))
    } else {
        Err(ErrorView::InvalidMethod(method))
    }
}

/// The query parameters as they stand in a URI: each as `key=value`, with
/// `&` between one and the next.
pub open spec fn query_text(entries: Entries) -> Seq<char>
    decreases entries.len(),
{
    if entries.len() == 0 {
        Seq::empty()
    } else if entries.len() == 1 {
        entries[0].0 + "="@ + entries[0].1
    } else {
        query_text(entries.drop_last()) + "&"@ + entries.last().0 + "="@ + entries.last().1
    }
}

/// The path of a request and, behind a `?`, its query parameters where
/// there are any.
pub open spec fn path_and_query_of(r: RequestView) -> Seq<char> {
    if r.query.len() == 0 {
        r.path
    } else {
        r.path + "?"@ + query_text(r.query)
    }
}

/// The URI of a request: scheme, host, and path with query.
pub open spec fn uri_of(r: RequestView) -> Seq<char> {
    r.scheme + "://"@ + r.host + path_and_query_of(r)
}

/// The name of the first header that cannot be sent, because its name or
/// its value is not accepted.
pub open spec fn first_bad_header(headers: Entries) -> Option<Seq<char>>
    decreases headers.len(),
{
    if headers.len() == 0 {
        None
    } else {
        match first_bad_header(headers.drop_last()) {
            Some(name) => Some(name),
            None => if header_name_accepts(headers.last().0) && is_header_value(
                headers.last().1,
            ) {
                None
            } else {
                Some(headers.last().0)
            },
        }
    }
}

/// A header that cannot be sent among the first is the first such among
/// all.
proof fn first_bad_header_stays(headers: Entries, upto: int)
    requires
        0 <= upto <= headers.len(),
        first_bad_header(headers.take(upto)) is Some,
    ensures
        first_bad_header(headers) == first_bad_header(headers.take(upto)),
    decreases headers.len() - upto,
{
    if upto == headers.len() {
        assert(headers.take(upto) == headers);
    } else {
        assert(headers.take(upto + 1).drop_last() == headers.take(upto));
        first_bad_header_stays(headers, upto + 1);
    }
}

/// The headers as they are sent: where the request has a body, the content
/// type that the body declares stands under `Content-Type`, whatever stood
/// there.
pub open spec fn headers_sent(r: RequestView) -> Entries {
    match r.body {
        Some(body) => put(r.headers, "Content-Type"@, content_type_of(body)),
        None => r.headers,
    }
}

/// What is sent for a request whose tokens are filled in.
#[derive(Debug)]
pub struct Outgoing {
    /// The method, in upper case.
    pub method: String,
    /// The address that the request goes to.
    pub uri: String,
    /// The headers, with the content type of the body where there is one.
    pub headers: Dict<String>,
    /// What is sent along, if anything.
    pub body: Option<Body>,
}

/// An `Outgoing` with its texts as sequences of characters.
pub struct OutgoingView {
    pub method: Seq<char>,
    pub uri: Seq<char>,
    pub headers: Entries,
    pub body: Option<BodyView>,
}

impl View for Outgoing {
    type V = OutgoingView;

    open spec fn view(&self) -> OutgoingView {
        OutgoingView {
            method: self.method@,
            uri: self.uri@,
            headers: self.headers@,
            body: body_view(self.body),
        }
    }
}

/// What is sent for the request `r`, or the error of its method, of its
/// URI or of its first header that cannot be sent, in that order.
pub open spec fn sent(r: RequestView) -> Result<OutgoingView, ErrorView> {
    match method_sent(r.method) {
        Err(e) => Err(e),
        Ok(method) => if !uri_accepts(r.scheme, r.host, path_and_query_of(r)) {
            Err(ErrorView::InvalidUri(uri_of(r)))
        } else {
            match first_bad_header(headers_sent(r)) {
                Some(name) => Err(ErrorView::InvalidHeader(name)),
                None => Ok(
                    OutgoingView { method, uri: uri_of(r), headers: headers_sent(r), body: r.body },
                ),
            }
        },
    }
}

/// The request with the environments applied first and the response
/// queries answered afterwards, so that an environment can decide which
/// response or which path a query asks for.
pub open spec fn resolved(
    envs: Seq<Entries>,
    contents: Entries,
    r: RequestView,
) -> Result<RequestView, ErrorView> {
    with_responses(contents, with_environment(envs, r))
}

/// What is sent for the request `r` once it is resolved.
pub open spec fn prepared(
    envs: Seq<Entries>,
    contents: Entries,
    r: RequestView,
) -> Result<OutgoingView, ErrorView> {
    match resolved(envs, contents, r) {
        Err(e) => Err(e),
        Ok(filled) => sent(filled),
    }
}

/// The entries of a mapping as they are listed: each as two spaces, the
/// key, a colon and a space, the value, and the end of the line.
pub open spec fn listing(entries: Entries) -> Seq<char>
    decreases entries.len(),
{
    if entries.len() == 0 {
        Seq::empty()
    } else {
        listing(entries.drop_last()) + "  "@ + entries.last().0 + ": "@ + entries.last().1
            + "\n"@
    }
}

/// The headers of a request as they are listed, under their heading where
/// there are any.
pub open spec fn headers_listing(r: RequestView) -> Seq<char> {
    if r.headers.len() == 0 {
        Seq::empty()
    } else {
        "headers:\n"@ + listing(r.headers)
    }
}

/// The query parameters of a request as they are listed, under their
/// heading where there are any.
pub open spec fn query_listing(r: RequestView) -> Seq<char> {
    if r.query.len() == 0 {
        Seq::empty()
    } else {
        "query-parameters:\n"@ + listing(r.query)
    }
}

/// The text that shows a request: its method, its URI without the query
/// parameters, then its headers and its query parameters.
pub open spec fn description_of(r: RequestView) -> Seq<char> {
    "method: "@ + r.method + "\n"@ + "uri: "@ + r.scheme + "://"@ + r.host + r.path + "\n"@
        + headers_listing(r) + query_listing(r)
}

/// Writes the listing of a mapping behind `out`.
fn append_listing(out: &mut String, entries: &Dict<String>)
    ensures
        final(out)@ == old(out)@ + listing(entries@),
{
    let ghost before = out@;
    let mut i: usize = 0;
    proof {
        assert(before + listing(entries@.take(0)) == before);
    }
    while i < entries.len()
        invariant
            i <= entries@.len(),
            out@ == before + listing(entries@.take(i as int)),
        decreases entries@.len() - i,
    {
        proof {
            assert(entries@.take(i + 1).drop_last() == entries@.take(i as int));
            assert(entries@.take(i + 1).last() == entries@[i as int]);
        }
        let ghost done = listing(entries@.take(i as int));
        let ghost entry = entries@[i as int];
        out.append("  ");
        out.append(entries.key_at(i).as_str());
        out.append(": ");
        out.append(entries.value_at(i).as_str());
        out.append("\n");
        proof {
            assert(out@ == before + (done + "  "@ + entry.0 + ": "@ + entry.1 + "\n"@));
        }
        i = i + 1;
    }
    proof {
        assert(entries@.take(entries@.len() as int) == entries@);
    }
}

/// The environments are applied before the response queries are answered:
/// each text of the resolved request is what the stored responses make of
/// what the environments made of the text as it was written.
pub proof fn environment_runs_first(envs: Seq<Entries>, contents: Entries, r: RequestView)
    ensures
        match resolved(envs, contents, r) {
            Ok(filled) => {
                &&& apply_responses(contents, apply_all(envs, r.scheme)) == Ok::<
                    Seq<char>,
                    ErrorView,
                >(filled.scheme)
                &&& apply_responses(contents, apply_all(envs, r.host)) == Ok::<
                    Seq<char>,
                    ErrorView,
                >(filled.host)
                &&& apply_responses(contents, apply_all(envs, r.path)) == Ok::<
                    Seq<char>,
                    ErrorView,
                >(filled.path)
                &&& answer_entries(contents, fill_entries(envs, r.headers)) == Ok::<
                    Entries,
                    ErrorView,
                >(filled.headers)
                &&& answer_entries(contents, fill_entries(envs, r.query)) == Ok::<
                    Entries,
                    ErrorView,
                >(filled.query)
            },
            Err(_) => true,
        },
{
}

/// Answering the queries of a mapping never asks for a response that is
/// held.
proof fn entries_ask_for_missing_only(contents: Entries, entries: Entries, name: Seq<char>)
    requires
        has_key(contents, name),
    ensures
        !asks_for(answer_entries(contents, entries), name),
    decreases entries.len(),
{
    if entries.len() > 0 {
        entries_ask_for_missing_only(contents, entries.drop_last(), name);
        held_response_is_not_asked_for(contents, name, entries.last().0);
        held_response_is_not_asked_for(contents, name, entries.last().1);
    }
}

/// A request never asks for a response that is held: once the response of
/// `name` is loaded, neither resolving nor preparing fails for want of it.
pub proof fn request_asks_for_missing_only(
    envs: Seq<Entries>,
    contents: Entries,
    r: RequestView,
    name: Seq<char>,
)
    requires
        has_key(contents, name),
    ensures
        !asks_for(resolved(envs, contents, r), name),
        !asks_for(prepared(envs, contents, r), name),
{
    let filled = with_environment(envs, r);
    held_response_is_not_asked_for(contents, name, filled.scheme);
    held_response_is_not_asked_for(contents, name, filled.host);
    held_response_is_not_asked_for(contents, name, filled.path);
    entries_ask_for_missing_only(contents, filled.headers, name);
    entries_ask_for_missing_only(contents, filled.query, name);
}

/// The outcome of changing a request in place: the request as it is
/// afterwards, or the error.
pub open spec fn change(out: Result<(), Error>, after: RequestView) -> Result<
    RequestView,
    ErrorView,
> {
    match out {
        Ok(()) => Ok(after),
        Err(e) => Err(e@),
    }
}

/// Whether `name` is one of the HTTP verbs.
fn is_verb(name: &String) -> (out: bool)
    ensures
        out == is_http_verb(name@),
{
    *name == String::from_str("GET") || *name == String::from_str("HEAD") || *name
        == String::from_str("POST") || *name == String::from_str("PUT") || *name
        == String::from_str("DELETE") || *name == String::from_str("CONNECT") || *name
        == String::from_str("OPTIONS") || *name == String::from_str("TRACE") || *name
        == String::from_str("PATCH")
}

/// Applies the environments to each key and each value of a mapping.
fn fill(envs: &[Environment], entries: &Dict<String>) -> (out: Dict<String>)
    ensures
        out@ == fill_entries(entries_of(envs@), entries@),
{
    let mut out: Dict<String> = Dict::new();
    let mut i: usize = 0;
    while i < entries.len()
        invariant
            i <= entries@.len(),
            out@ == fill_entries(entries_of(envs@), entries@.take(i as int)),
        decreases entries@.len() - i,
    {
        let key = envs.apply_environment(entries.key_at(i).as_str());
        let value = envs.apply_environment(entries.value_at(i).as_str());
        proof {
            assert(entries@.take(i + 1).drop_last() == entries@.take(i as int));
            assert(entries@.take(i + 1).last() == entries@[i as int]);
        }
        out.insert(key, value);
        i = i + 1;
    }
    proof {
        assert(entries@.take(entries@.len() as int) == entries@);
    }
    out
}

/// Answers the response queries in each key and each value of a mapping.
fn answer_all(responses: &Responses, entries: &Dict<String>) -> (out: Result<Dict<String>, Error>)
    ensures
        outcome(out) == answer_entries(responses@, entries@),
{
    let mut done: Dict<String> = Dict::new();
    let mut i: usize = 0;
    while i < entries.len()
        invariant
            i <= entries@.len(),
            answer_entries(responses@, entries@.take(i as int)) == Ok::<
                Entries,
                ErrorView,
            >(done@),
        decreases entries@.len() - i,
    {
        proof {
            assert(entries@.take(i + 1).drop_last() == entries@.take(i as int));
            assert(entries@.take(i + 1).last() == entries@[i as int]);
        }
        let key = match responses.apply(entries.key_at(i).as_str()) {
            Ok(key) => key,
            Err(e) => {
                proof {
                    answer_entries_keeps_failure(responses@, entries@, i + 1);
                }
                return Err(e);
            },
        };
        let value = match responses.apply(entries.value_at(i).as_str()) {
            Ok(value) => value,
            Err(e) => {
                proof {
                    answer_entries_keeps_failure(responses@, entries@, i + 1);
                }
                return Err(e);
            },
        };
        done.insert(key, value);
        i = i + 1;
    }
    proof {
        assert(entries@.take(entries@.len() as int) == entries@);
    }
    Ok(done)
}

/// A failure on the first entries is the failure on all of them.
proof fn answer_entries_keeps_failure(contents: Entries, entries: Entries, upto: int)
    requires
        0 <= upto <= entries.len(),
        answer_entries(contents, entries.take(upto)) is Err,
    ensures
        answer_entries(contents, entries) == answer_entries(contents, entries.take(upto)),
    decreases entries.len() - upto,
{
    if upto == entries.len() {
        assert(entries.take(upto) == entries);
    } else {
        assert(entries.take(upto + 1).drop_last() == entries.take(upto));
        answer_entries_keeps_failure(contents, entries, upto + 1);
    }
}

impl Clone for Request {
    fn clone(&self) -> (out: Self)
        ensures
            out@ == self@,
    {
        let body = match &self.body {
            Some(body) => Some(body.clone()),
            None => None,
        };
        Request {
            method: self.method.clone(),
            scheme: self.scheme.clone(),
            host: self.host.clone(),
            path: self.path.clone(),
            headers: self.headers.clone(),
            query: self.query.clone(),
            body,
        }
    }
}

impl Request {
    /// A request by `method` to `host`, with the scheme and the path that
    /// a request has where it names none, and with no headers, query
    /// parameters or body.
    pub fn new(method: String, host: String) -> (out: Self)
        ensures
            out@ == (RequestView {
                method: method@,
                scheme: "http"@,
                host: host@,
                path: "/"@,
                headers: Seq::empty(),
                query: Seq::empty(),
                body: None,
            }),
    {
        Request {
            method,
            scheme: default_scheme(),
            host,
            path: default_path(),
            headers: Dict::new(),
            query: Dict::new(),
            body: None,
        }
    }

    /// A request made of the given parts.
    pub fn from_parts(
        method: String,
        scheme: String,
        host: String,
        path: String,
        headers: Dict<String>,
        query: Dict<String>,
        body: Option<Body>,
    ) -> (out: Self)
        ensures
            out@ == (RequestView {
                method: method@,
                scheme: scheme@,
                host: host@,
                path: path@,
                headers: headers@,
                query: query@,
                body: body_view(body),
            }),
    {
        Request { method, scheme, host, path, headers, query, body }
    }

    /// The method as it is written down.
    pub fn method(&self) -> (out: &String)
        ensures
            out@ == self@.method,
    {
        &self.method
    }

    /// The scheme.
    pub fn scheme(&self) -> (out: &String)
        ensures
            out@ == self@.scheme,
    {
        &self.scheme
    }

    /// The host.
    pub fn host(&self) -> (out: &String)
        ensures
            out@ == self@.host,
    {
        &self.host
    }

    /// The path.
    pub fn path(&self) -> (out: &String)
        ensures
            out@ == self@.path,
    {
        &self.path
    }

    /// The headers.
    pub fn headers(&self) -> (out: &Dict<String>)
        ensures
            out@ == self@.headers,
    {
        &self.headers
    }

    /// The query parameters.
    pub fn query(&self) -> (out: &Dict<String>)
        ensures
            out@ == self@.query,
    {
        &self.query
    }

    /// What the request sends along, if anything.
    pub fn body(&self) -> (out: &Option<Body>)
        ensures
            body_view(*out) == self@.body,
    {
        &self.body
    }

    /// The text that shows the request: its method, its URI without the
    /// query parameters, then its headers and its query parameters, each
    /// list under its heading where it is not empty.
    pub fn describe(&self) -> (out: String)
        ensures
            out@ == description_of(self@),
    {
        let mut out = String::from_str("method: ");
        out.append(self.method.as_str());
        out.append("\n");
        out.append("uri: ");
        out.append(self.scheme.as_str());
        out.append("://");
        out.append(self.host.as_str());
        out.append(self.path.as_str());
        out.append("\n");
        let ghost head = out@;
        if self.headers.len() > 0 {
            out.append("headers:\n");
            append_listing(&mut out, &self.headers);
        }
        proof {
            assert(out@ == head + headers_listing(self@));
        }
        let ghost middle = out@;
        if self.query.len() > 0 {
            out.append("query-parameters:\n");
            append_listing(&mut out, &self.query);
        }
        proof {
            assert(out@ == middle + query_listing(self@));
        }
        out
    }

    /// Fills in the request: the environments are applied first, then the
    /// response queries are answered. On an error the request stays as it
    /// was.
    pub fn resolve(&mut self, envs: &[Environment], responses: &Responses) -> (out: Result<
        (),
        Error,
    >)
        ensures
            change(out, final(self)@) == resolved(entries_of(envs@), responses@, old(self)@),
            out is Err ==> final(self)@ == old(self)@,
    {
        let mut filled = self.clone();
        filled.apply_environment(envs);
        match filled.apply_responses(responses) {
            Ok(()) => {
                *self = filled;
                Ok(())
            },
            Err(e) => Err(e),
        }
    }

    /// The method in upper case, or an error where that is none of the
    /// HTTP verbs.
    pub fn method_name(&self) -> (out: Result<String, Error>)
        ensures
            outcome(out) == method_sent(self@.method),
    {
        let upper = string_of(&uppercase_chars(&chars_of(self.method.as_str())));
        if is_verb(&upper) {
            Ok(upper)
        } else {
            Err(Error::InvalidMethod(self.method.clone()))
        }
    }

    /// The query parameters as they stand in the URI.
    pub fn query_string(&self) -> (out: String)
        ensures
            out@ == query_text(self@.query),
    {
        let mut out = String::new();
        let mut i: usize = 0;
        while i < self.query.len()
            invariant
                i <= self.query@.len(),
                out@ == query_text(self.query@.take(i as int)),
            decreases self.query@.len() - i,
        {
            proof {
                let done = self.query@.take(i as int);
                let next = self.query@.take(i + 1);
                assert(next.drop_last() == done);
                assert(next.last() == self.query@[i as int]);
                if i == 0 {
                    assert(next[0] == self.query@[0]);
                    assert(Seq::<char>::empty() + next[0].0 == next[0].0);
                }
            }
            if i > 0 {
                out.append("&");
            }
            out.append(self.query.key_at(i).as_str());
            out.append("=");
            out.append(self.query.value_at(i).as_str());
            i = i + 1;
        }
        proof {
            assert(self.query@.take(self.query@.len() as int) == self.query@);
        }
        out
    }

    /// The path and, behind a `?`, the query parameters where there are
    /// any.
    pub fn path_and_query(&self) -> (out: String)
        ensures
            out@ == path_and_query_of(self@),
    {
        let mut out = self.path.clone();
        if self.query.len() > 0 {
            out.append("?");
            let query = self.query_string();
            out.append(query.as_str());
        }
        out
    }

    /// The URI that the request goes to.
    pub fn uri(&self) -> (out: String)
        ensures
            out@ == uri_of(self@),
    {
        let mut out = self.scheme.clone();
        out.append("://");
        out.append(self.host.as_str());
        let rest = self.path_and_query();
        out.append(rest.as_str());
        out
    }

    /// The headers as they are sent.
    pub fn headers_to_send(&self) -> (out: Dict<String>)
        ensures
            out@ == headers_sent(self@),
    {
        let mut out = self.headers.clone();
        match &self.body {
            Some(body) => {
                out.insert(String::from_str("Content-Type"), body.content_type().clone());
            },
            None => {},
        }
        out
    }

    /// What is sent for this request as it stands: the method in upper
    /// case, the URI, the headers with the content type of the body, and
    /// the body. Fails where the method is none of the HTTP verbs, where
    /// the parts make no URI, or where a header cannot be sent.
    pub fn outgoing(&self) -> (out: Result<Outgoing, Error>)
        ensures
            outcome(out) == sent(self@),
    {
        let method = match self.method_name() {
            Ok(name) => name,
            Err(e) => {
                return Err(e);
            },
        };
        let rest = self.path_and_query();
        if !uri_accepted(self.scheme.as_str(), self.host.as_str(), rest.as_str()) {
            return Err(Error::InvalidUri(self.uri()));
        }
        let headers = self.headers_to_send();
        let mut i: usize = 0;
        while i < headers.len()
            invariant
                i <= headers@.len(),
                headers@ == headers_sent(self@),
                method_sent(self@.method) == Ok::<Seq<char>, ErrorView>(method@),
                uri_accepts(self@.scheme, self@.host, path_and_query_of(self@)),
                first_bad_header(headers@.take(i as int)) is None,
            decreases headers@.len() - i,
        {
            proof {
                assert(headers@.take(i + 1).drop_last() == headers@.take(i as int));
                assert(headers@.take(i + 1).last() == headers@[i as int]);
            }
            let name = headers.key_at(i);
            if !header_name_accepted(name.as_str()) || !header_value_accepted(
                headers.value_at(i).as_str(),
            ) {
                proof {
                    first_bad_header_stays(headers@, i + 1);
                }
                return Err(Error::InvalidHeader(name.clone()));
            }
            i = i + 1;
        }
        proof {
            assert(headers@.take(headers@.len() as int) == headers@);
        }
        let body = match &self.body {
            Some(body) => Some(body.clone()),
            None => None,
        };
        Ok(Outgoing { method, uri: self.uri(), headers, body })
    }

    /// What is sent for this request once it is filled in from the
    /// environments and the stored responses. The request itself stays as
    /// it is. A query into a response that the store does not hold fails
    /// with `NotLoaded`: load that response and prepare again.
    pub fn prepare(&self, envs: &[Environment], responses: &Responses) -> (out: Result<
        Outgoing,
        Error,
    >)
        ensures
            outcome(out) == prepared(entries_of(envs@), responses@, self@),
    {
        let mut filled = self.clone();
        match filled.resolve(envs, responses) {
            Ok(()) => filled.outgoing(),
            Err(e) => Err(e),
        }
    }

    /// Applies the environments to the scheme, the host and the path, and
    /// to the keys and values of the headers and of the query parameters.
    pub fn apply_environment(&mut self, envs: &[Environment])
        ensures
            final(self)@ == with_environment(entries_of(envs@), old(self)@),
    {
        self.scheme = envs.apply_environment(self.scheme.as_str());
        self.host = envs.apply_environment(self.host.as_str());
        self.path = envs.apply_environment(self.path.as_str());
        self.headers = fill(envs, &self.headers);
        self.query = fill(envs, &self.query);
    }

    /// Answers the response queries in the scheme, the host and the path,
    /// and in the keys and values of the headers and of the query
    /// parameters, from the stored responses. On an error the request
    /// stays as it was.
    pub fn apply_responses(&mut self, responses: &Responses) -> (out: Result<(), Error>)
        ensures
            change(out, final(self)@) == with_responses(responses@, old(self)@),
            out is Err ==> final(self)@ == old(self)@,
    {
        let scheme = match responses.apply(self.scheme.as_str()) {
            Ok(text) => text,
            Err(e) => {
                return Err(e);
            },
        };
        let host = match responses.apply(self.host.as_str()) {
            Ok(text) => text,
            Err(e) => {
                return Err(e);
            },
        };
        let path = match responses.apply(self.path.as_str()) {
            Ok(text) => text,
            Err(e) => {
                return Err(e);
            },
        };
        let headers = match answer_all(responses, &self.headers) {
            Ok(entries) => entries,
            Err(e) => {
                return Err(e);
            },
        };
        let query = match answer_all(responses, &self.query) {
            Ok(entries) => entries,
            Err(e) => {
                return Err(e);
            },
        };
        self.scheme = scheme;
        self.host = host;
        self.path = path;
        self.headers = headers;
        self.query = query;
        Ok(())
    }
}

} // verus!
