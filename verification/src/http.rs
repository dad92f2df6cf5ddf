//! The local HTTP surface: which request leads where, and what a reply looks
//! like. Reading requests and sending replies is left to the listener.

use crate::collection::Collection;
use crate::listing::views;
use crate::names::{is_hidden, is_hidden_name, is_safe_component, is_safe_path_component};
use crate::text::{has_prefix, range_equals, string_from, to_chars};
use vstd::prelude::*;
use vstd::string::StringExecFns;
use vstd::utf8::{decode_utf8, encode_utf8, valid_utf8};

verus! {

/// The method of a request.
#[derive(Clone, Copy, Debug, PartialEq, Eq, Structural)]
pub enum Method {
    Get,
    Post,
    Options,
    Other,
}

/// Why a request is refused with status 400.
#[derive(Clone, Copy, Debug, PartialEq, Eq, Structural)]
pub enum Refusal {
    InvalidFilename,
    InvalidAngaName,
    InvalidPath,
}

/// Where a request leads.
#[derive(Debug)]
pub enum Route {
    /// `OPTIONS` on any path: answered with 204.
    Preflight,
    /// `GET /health`: answered with `ok`.
    Health,
    /// `GET /anga`, `GET /meta`, `GET /words/{anga}`: the files of a collection.
    ListFiles(Collection),
    /// `GET /words`: the sub-directories of `words`.
    ListWordDirs,
    /// `POST /anga/{name}`, `POST /meta/{name}`, `POST /words/{anga}/{name}`:
    /// the body is written to that file.
    WriteFile { collection: Collection, filename: String },
    /// `POST /config`: the body holds new account settings.
    Config,
    /// The path names something that is not acceptable: answered with 400.
    Refused(Refusal),
    /// Anything else: answered with 404.
    NotFound,
}

/// The value of a hexadecimal digit, either case.
pub open spec fn hex_value(b: u8) -> Option<u8> {
    if 0x30 <= b <= 0x39 {
        Some((b - 0x30) as u8)
    } else if 0x41 <= b <= 0x46 {
        Some((b - 0x41 + 10) as u8)
    } else if 0x61 <= b <= 0x66 {
        Some((b - 0x61 + 10) as u8)
    } else {
        None
    }
}

/// Whether `bytes` starts with a percent escape: `%` and two hexadecimal
/// digits.
pub open spec fn starts_with_escape(bytes: Seq<u8>) -> bool {
    &&& bytes.len() >= 3
    &&& bytes[0] == 0x25
    &&& hex_value(bytes[1]) is Some
    &&& hex_value(bytes[2]) is Some
}

/// `bytes` with every percent escape replaced by the byte it stands for. A
/// `%` that starts no escape is kept.
pub open spec fn percent_decoded_bytes(bytes: Seq<u8>) -> Seq<u8>
    decreases bytes.len(),
{
    if bytes.len() == 0 {
        Seq::<u8>::empty()
    } else if starts_with_escape(bytes) {
        seq![(hex_value(bytes[1])->0 * 16 + hex_value(bytes[2])->0) as u8] + percent_decoded_bytes(
            bytes.subrange(3, bytes.len() as int),
        )
    } else {
        seq![bytes[0]] + percent_decoded_bytes(bytes.drop_first())
    }
}

/// `text` with its percent escapes decoded, where the result is valid UTF-8.
pub open spec fn percent_decoded(text: Seq<char>) -> Option<Seq<char>> {
    let bytes = percent_decoded_bytes(encode_utf8(text));
    if valid_utf8(bytes) {
        Some(decode_utf8(bytes))
    } else {
        None
    }
}

/// The name that a part of a path stands for: the part with its escapes
/// decoded, or the empty name where that is no text.
pub open spec fn path_name(part: Seq<char>) -> Seq<char> {
    match percent_decoded(part) {
        Some(name) => name,
        None => Seq::<char>::empty(),
    }
}

/// What follows `prefix` in `text`.
pub open spec fn after(text: Seq<char>, prefix: Seq<char>) -> Seq<char> {
    text.subrange(prefix.len() as int, text.len() as int)
}

/// How often `c` occurs in `text`.
pub open spec fn occurrences(text: Seq<char>, c: char) -> nat
    decreases text.len(),
{
    if text.len() == 0 {
        0
    } else {
        occurrences(text.drop_last(), c) + if text.last() == c {
            1nat
        } else {
            0nat
        }
    }
}

/// The position of the first `c` in `text`; the length of `text` where it has
/// none.
pub open spec fn first_index(text: Seq<char>, c: char) -> int
    decreases text.len(),
{
    if text.len() == 0 {
        0
    } else if text.first() == c {
        0
    } else {
        1 + first_index(text.drop_first(), c)
    }
}

/// `route` writes `filename` to `collection`.
pub open spec fn is_write(route: &Route, collection: &Collection, filename: Seq<char>) -> bool {
    route matches Route::WriteFile { collection: c, filename: f } && c.same(collection) && f@
        == filename
}

/// `route` lists the files of `collection`.
pub open spec fn is_list(route: &Route, collection: &Collection) -> bool {
    route matches Route::ListFiles(c) && c.same(collection)
}

/// The routing table: `route` is where a request with this method and this
/// path leads. The first line that applies decides.
pub open spec fn routes_to(method: Method, url: Seq<char>, route: &Route) -> bool {
    if method == Method::Options {
        route is Preflight
    } else if method == Method::Get && url == "/health"@ {
        route is Health
    } else if method == Method::Get && url == "/anga"@ {
        is_list(route, &Collection::Anga)
    } else if method == Method::Get && url == "/meta"@ {
        is_list(route, &Collection::Meta)
    } else if method == Method::Post && has_prefix(url, "/anga/"@) {
        let name = path_name(after(url, "/anga/"@));
        if is_safe_component(name) {
            is_write(route, &Collection::Anga, name)
        } else {
            route == Route::Refused(Refusal::InvalidFilename)
        }
    } else if method == Method::Post && has_prefix(url, "/meta/"@) {
        let name = path_name(after(url, "/meta/"@));
        if is_safe_component(name) {
            is_write(route, &Collection::Meta, name)
        } else {
            route == Route::Refused(Refusal::InvalidFilename)
        }
    } else if method == Method::Get && url == "/words"@ {
        route is ListWordDirs
    } else if method == Method::Get && has_prefix(url, "/words/"@) && occurrences(url, '/') == 2 {
        let anga = path_name(after(url, "/words/"@));
        if is_safe_component(anga) {
            route matches Route::ListFiles(Collection::Words(a)) && a@ == anga
        } else {
            route == Route::Refused(Refusal::InvalidAngaName)
        }
    } else if method == Method::Post && has_prefix(url, "/words/"@) && occurrences(url, '/') == 3 {
        let path = after(url, "/words/"@);
        let cut = first_index(path, '/');
        let anga = path_name(path.subrange(0, cut));
        let name = path_name(path.subrange(cut + 1, path.len() as int));
        if cut < path.len() && is_safe_component(anga) && is_safe_component(name) {
            route matches Route::WriteFile { collection: Collection::Words(a), filename: f } && a@
                == anga && f@ == name
        } else {
            route == Route::Refused(Refusal::InvalidPath)
        }
    } else if method == Method::Post && url == "/config"@ {
        route is Config
    } else {
        route is NotFound
    }
}

/// `urlencoding::decode`: the text with each `%` and two hexadecimal digits
/// replaced by the byte they name, and every other byte kept, if that is valid
/// UTF-8; otherwise nothing.
#[verifier::external_body]
fn percent_decode(text: &str) -> (out: Option<String>)
    ensures
        match out {
            Some(decoded) => percent_decoded(text@) == Some(decoded@),
            None => percent_decoded(text@) is None,
        },
{
    match urlencoding::decode(text) {
        Ok(decoded) => Some(decoded.into_owned()),
        Err(_) => None,
    }
}

/// The name that `chars[from..to]` stands for.
fn decode_name(chars: &Vec<char>, from: usize, to: usize) -> (name: String)
    requires
        from <= to <= chars.len(),
    ensures
        name@ == path_name(chars@.subrange(from as int, to as int)),
{
    let part = string_from(chars, from, to);
    match percent_decode(part.as_str()) {
        Some(name) => name,
        None => String::new(),
    }
}

/// The length of `prefix` if `chars` starts with it.
fn prefix_len(chars: &Vec<char>, prefix: &str) -> (r: Option<usize>)
    ensures
        r is Some == has_prefix(chars@, prefix@),
        r matches Some(n) ==> n == prefix@.len(),
{
    let n = prefix.unicode_len();
    if n <= chars.len() && range_equals(chars, 0, n, prefix) {
        Some(n)
    } else {
        None
    }
}

/// Whether `chars` spells `word`.
fn spells(chars: &Vec<char>, word: &str) -> (r: bool)
    ensures
        r == (chars@ == word@),
{
    assert(chars@.subrange(0, chars@.len() as int) =~= chars@);
    range_equals(chars, 0, chars.len(), word)
}

/// How often `c` occurs in `chars`.
fn count_of(chars: &Vec<char>, c: char) -> (n: usize)
    ensures
        n == occurrences(chars@, c),
{
    let mut n: usize = 0;
    let mut i: usize = 0;
    assert(chars@.take(0) =~= Seq::<char>::empty());
    while i < chars.len()
        invariant
            i <= chars.len(),
            n <= i,
            n == occurrences(chars@.take(i as int), c),
        decreases chars.len() - i,
    {
        assert(chars@.take(i + 1).drop_last() =~= chars@.take(i as int));
        if chars[i] == c {
            n += 1;
        }
        i += 1;
    }
    assert(chars@.take(i as int) =~= chars@);
    n
}

proof fn lemma_first_index(text: Seq<char>, c: char, i: int)
    requires
        0 <= i <= text.len(),
        forall|k: int| 0 <= k < i ==> text[k] != c,
        i < text.len() ==> text[i] == c,
    ensures
        first_index(text, c) == i,
    decreases i,
{
    if i > 0 {
        let t = text.drop_first();
        assert forall|k: int| 0 <= k < i - 1 implies t[k] != c by {
            assert(t[k] == text[k + 1]);
        }
        lemma_first_index(t, c, i - 1);
    }
}

/// The position of the first `c` in `chars[from..]`, counted from `from`.
fn find_from(chars: &Vec<char>, from: usize, c: char) -> (i: usize)
    requires
        from <= chars.len(),
    ensures
        from + i <= chars.len(),
        i == first_index(chars@.subrange(from as int, chars@.len() as int), c),
{
    let mut i: usize = from;
    while i < chars.len() && chars[i] != c
        invariant
            from <= i <= chars.len(),
            forall|k: int| from <= k < i ==> chars@[k] != c,
        decreases chars.len() - i,
    {
        i += 1;
    }
    proof {
        lemma_first_index(chars@.subrange(from as int, chars@.len() as int), c, i - from);
    }
    i - from
}

/// Decides where a request leads.
///
/// A name in a path is taken with its percent escapes decoded. A name that is
/// empty, holds a `/` or holds `..` is refused, and so is one whose decoded
/// form is no text.
pub fn route_request(method: Method, url: &str) -> (route: Route)
    ensures
        routes_to(method, url@, &route),
{
    let chars = to_chars(url);
    let n = chars.len();
    if method == Method::Options {
        return Route::Preflight;
    }
    let is_get = method == Method::Get;
    let is_post = method == Method::Post;
    if is_get && spells(&chars, "/health") {
        return Route::Health;
    }
    if is_get && spells(&chars, "/anga") {
        return Route::ListFiles(Collection::Anga);
    }
    if is_get && spells(&chars, "/meta") {
        return Route::ListFiles(Collection::Meta);
    }
    if is_post {
        if let Some(start) = prefix_len(&chars, "/anga/") {
            let name = decode_name(&chars, start, n);
            if is_safe_path_component(name.as_str()) {
                return Route::WriteFile { collection: Collection::Anga, filename: name };
            }
            return Route::Refused(Refusal::InvalidFilename);
        }
        if let Some(start) = prefix_len(&chars, "/meta/") {
            let name = decode_name(&chars, start, n);
            if is_safe_path_component(name.as_str()) {
                return Route::WriteFile { collection: Collection::Meta, filename: name };
            }
            return Route::Refused(Refusal::InvalidFilename);
        }
    }
    if is_get && spells(&chars, "/words") {
        return Route::ListWordDirs;
    }
    if is_get || is_post {
        if let Some(start) = prefix_len(&chars, "/words/") {
            let slashes = count_of(&chars, '/');
            if is_get && slashes == 2 {
                let anga = decode_name(&chars, start, n);
                if is_safe_path_component(anga.as_str()) {
                    return Route::ListFiles(Collection::Words(anga));
                }
                return Route::Refused(Refusal::InvalidAngaName);
            }
            if is_post && slashes == 3 {
                let cut = find_from(&chars, start, '/');
                if cut >= n - start {
                    return Route::Refused(Refusal::InvalidPath);
                }
                let ghost path = chars@.subrange(start as int, n as int);
                let anga = decode_name(&chars, start, start + cut);
                let name = decode_name(&chars, start + cut + 1, n);
                proof {
                    assert(path.subrange(0, cut as int) =~= chars@.subrange(
                        start as int,
                        start + cut,
                    ));
                    assert(path.subrange(cut + 1, path.len() as int) =~= chars@.subrange(
                        start + cut + 1,
                        n as int,
                    ));
                }
                if is_safe_path_component(anga.as_str()) && is_safe_path_component(
                    name.as_str(),
                ) {
                    return Route::WriteFile {
                        collection: Collection::Words(anga),
                        filename: name,
                    };
                }
                return Route::Refused(Refusal::InvalidPath);
            }
        }
    }
    if is_post && spells(&chars, "/config") {
        return Route::Config;
    }
    Route::NotFound
}

/// The text that a refusal is answered with.
pub open spec fn refusal_text(refusal: Refusal) -> Seq<char> {
    match refusal {
        Refusal::InvalidFilename => "Invalid filename"@,
        Refusal::InvalidAngaName => "Invalid anga name"@,
        Refusal::InvalidPath => "Invalid path"@,
    }
}

/// A reply: a status, a body, and the headers that go with every reply.
#[derive(Debug)]
pub struct Reply {
    pub status: u16,
    pub body: String,
    pub headers: Vec<(String, String)>,
}

/// A header as a pair of texts.
pub open spec fn header_view(header: (String, String)) -> (Seq<char>, Seq<char>) {
    (header.0@, header.1@)
}

/// The headers that let any web page call the listener.
pub open spec fn cors_header_views() -> Seq<(Seq<char>, Seq<char>)> {
    seq![
        ("Access-Control-Allow-Origin"@, "*"@),
        ("Access-Control-Allow-Methods"@, "GET, POST, OPTIONS"@),
        ("Access-Control-Allow-Headers"@, "Content-Type"@),
    ]
}

/// `reply` has this status and this body, and carries the CORS headers.
pub open spec fn is_reply(reply: &Reply, status: u16, body: Seq<char>) -> bool {
    &&& reply.status == status
    &&& reply.body@ == body
    &&& reply.headers@.map_values(|h: (String, String)| header_view(h)) == cors_header_views()
}

/// The headers that go with every reply.
pub fn cors_headers() -> (headers: Vec<(String, String)>)
    ensures
        headers@.map_values(|h: (String, String)| header_view(h)) == cors_header_views(),
{
    let mut headers: Vec<(String, String)> = Vec::new();
    headers.push((String::from_str("Access-Control-Allow-Origin"), String::from_str("*")));
    headers.push(
        (String::from_str("Access-Control-Allow-Methods"), String::from_str("GET, POST, OPTIONS")),
    );
    headers.push(
        (String::from_str("Access-Control-Allow-Headers"), String::from_str("Content-Type")),
    );
    assert(headers@.map_values(|h: (String, String)| header_view(h)) =~= cors_header_views());
    headers
}

/// The reply to a request that was served: status 200 and `body`.
pub fn respond_ok(body: &str) -> (reply: Reply)
    ensures
        is_reply(&reply, 200, body@),
{
    Reply { status: 200, body: String::from_str(body), headers: cors_headers() }
}

/// The reply to a request that failed: `status` and what went wrong.
pub fn respond_error(status: u16, message: &str) -> (reply: Reply)
    ensures
        is_reply(&reply, status, message@),
{
    Reply { status, body: String::from_str(message), headers: cors_headers() }
}

/// The reply to a preflight request: status 204 and no body.
pub fn respond_no_content() -> (reply: Reply)
    ensures
        is_reply(&reply, 204, Seq::<char>::empty()),
{
    Reply { status: 204, body: String::new(), headers: cors_headers() }
}

/// The reply to a request that was refused: status 400 and the reason.
pub fn respond_refused(refusal: Refusal) -> (reply: Reply)
    ensures
        is_reply(&reply, 400, refusal_text(refusal)),
{
    let text = match refusal {
        Refusal::InvalidFilename => "Invalid filename",
        Refusal::InvalidAngaName => "Invalid anga name",
        Refusal::InvalidPath => "Invalid path",
    };
    respond_error(400, text)
}

/// What came of serving a request that needed input or output.
#[derive(Debug)]
pub enum Served {
    /// A directory was listed; this is the body of the listing.
    Listing(String),
    /// The body of the request was written to its file.
    FileWritten,
    /// The settings were stored.
    ConfigStored,
    /// Reading, writing or storing failed; the text says how.
    Failed(String),
}

/// The status and body that answer a route which needs no input or output:
/// 204 for a preflight request, `ok` for a health check, 400 and the reason
/// for a refused name, 404 for a request that leads nowhere. Every other
/// route is answered once it was served.
pub open spec fn direct_answer(route: &Route) -> Option<(u16, Seq<char>)> {
    match route {
        Route::Preflight => Some((204u16, Seq::<char>::empty())),
        Route::Health => Some((200u16, "ok"@)),
        Route::Refused(refusal) => Some((400u16, refusal_text(*refusal))),
        Route::NotFound => Some((404u16, "Not found"@)),
        _ => None,
    }
}

/// The status and body that answer a request that was served: 200 with the
/// listing, with `ok` for a written file and with `{"ok":true}` for stored
/// settings; 500 with what went wrong for a failure.
pub open spec fn served_answer(served: &Served) -> (u16, Seq<char>) {
    match served {
        Served::Listing(body) => (200u16, body@),
        Served::FileWritten => (200u16, "ok"@),
        Served::ConfigStored => (200u16, "{\"ok\":true}"@),
        Served::Failed(text) => (500u16, text@),
    }
}

/// The reply to a request whose route needs no input or output; `None` for a
/// route that has to be served first.
pub fn reply_directly(route: &Route) -> (reply: Option<Reply>)
    ensures
        match direct_answer(route) {
            Some((status, body)) => reply matches Some(r) && is_reply(&r, status, body),
            None => reply is None,
        },
{
    match route {
        Route::Preflight => Some(respond_no_content()),
        Route::Health => Some(respond_ok("ok")),
        Route::Refused(refusal) => Some(respond_refused(*refusal)),
        Route::NotFound => Some(respond_error(404, "Not found")),
        _ => None,
    }
}

/// The reply to a request that was served.
pub fn reply_to(served: &Served) -> (reply: Reply)
    ensures
        is_reply(&reply, served_answer(served).0, served_answer(served).1),
{
    match served {
        Served::Listing(body) => respond_ok(body.as_str()),
        Served::FileWritten => respond_ok("ok"),
        Served::ConfigStored => respond_ok("{\"ok\":true}"),
        Served::Failed(text) => respond_error(500, text.as_str()),
    }
}

/// The names of `names` that a listing shows: all of them, or those that are
/// not hidden.
pub open spec fn shown(names: Seq<Seq<char>>, with_hidden: bool) -> Seq<Seq<char>> {
    names.filter(|name: Seq<char>| with_hidden || !is_hidden(name))
}

/// The names that the listing of a directory shows, in the order given: the
/// files below `words` show all of theirs, every other directory hides what
/// starts with a dot.
pub fn visible_names(names: Vec<String>, with_hidden: bool) -> (out: Vec<String>)
    ensures
        views(out@) == shown(views(names@), with_hidden),
{
    let ghost keep = |name: Seq<char>| with_hidden || !is_hidden(name);
    let mut out: Vec<String> = Vec::new();
    let mut i: usize = 0;
    assert(views(names@).take(0) =~= Seq::<Seq<char>>::empty());
    while i < names.len()
        invariant
            i <= names.len(),
            keep == |name: Seq<char>| with_hidden || !is_hidden(name),
            views(out@) == views(names@).take(i as int).filter(keep),
        decreases names.len() - i,
    {
        let ghost prefix = views(names@).take(i as int);
        let ghost kept = views(out@);
        proof {
            assert(views(names@).take(i + 1) =~= prefix.push(names@[i as int]@));
            assert(prefix.push(names@[i as int]@).drop_last() =~= prefix);
            reveal(Seq::filter);
        }
        if with_hidden || !is_hidden_name(names[i].as_str()) {
            out.push(names[i].clone());
            assert(views(out@) =~= kept.push(names@[i as int]@));
        }
        i += 1;
    }
    assert(views(names@).take(i as int) =~= views(names@));
    out
}

/// `a` does not come after `b` in the order of texts: the lexicographic order
/// by code point.
pub open spec fn text_le(a: Seq<char>, b: Seq<char>) -> bool
    decreases a.len(),
{
    if a.len() == 0 {
        true
    } else if b.len() == 0 {
        false
    } else if a.first() != b.first() {
        (a.first() as u32) < (b.first() as u32)
    } else {
        text_le(a.drop_first(), b.drop_first())
    }
}

/// `lines` is in ascending order.
pub open spec fn is_sorted(lines: Seq<Seq<char>>) -> bool {
    forall|i: int, j: int| 0 <= i <= j < lines.len() ==> text_le(lines[i], lines[j])
}

/// `lines`, one per line: with a line feed between each two.
pub open spec fn joined(lines: Seq<Seq<char>>) -> Seq<char>
    decreases lines.len(),
{
    if lines.len() == 0 {
        Seq::<char>::empty()
    } else if lines.len() == 1 {
        lines.first()
    } else {
        joined(lines.drop_last()) + seq!['\n'] + lines.last()
    }
}

/// `body` lists `names`: it holds each of them on a line of its own, as often
/// as `names` does, in ascending order.
pub open spec fn lists(body: Seq<char>, names: Seq<Seq<char>>) -> bool {
    exists|lines: Seq<Seq<char>>|
        lines.to_multiset() == names.to_multiset() && is_sorted(lines) && body == #[trigger] joined(
            lines,
        )
}

/// `<[String]>::sort` of std: the strings are put in ascending order, which
/// for strings is the lexicographic order by code point; none is added or
/// lost.
#[verifier::external_body]
fn sort_names(names: &mut Vec<String>)
    ensures
        views(final(names)@).to_multiset() == views(old(names)@).to_multiset(),
        is_sorted(views(final(names)@)),
{
    names.sort();
}

/// The lines of `names`, with a line feed between each two.
pub fn join_lines(names: &Vec<String>) -> (body: String)
    ensures
        body@ == joined(views(names@)),
{
    let mut body = String::new();
    let mut i: usize = 0;
    assert(views(names@).take(0) =~= Seq::<Seq<char>>::empty());
    while i < names.len()
        invariant
            i <= names.len(),
            body@ == joined(views(names@).take(i as int)),
        decreases names.len() - i,
    {
        let ghost next = views(names@).take(i + 1);
        proof {
            assert(next.drop_last() =~= views(names@).take(i as int));
            assert(next.last() == names@[i as int]@);
        }
        if i > 0 {
            body.append("\n");
            proof {
                reveal_strlit("\n");
                assert("\n"@ =~= seq!['\n']);
            }
        }
        body.append(names[i].as_str());
        proof {
            if i == 0 {
                assert(joined(views(names@).take(0)) =~= Seq::<char>::empty());
                assert(body@ =~= next.first());
            }
        }
        i += 1;
    }
    assert(views(names@).take(i as int) =~= views(names@));
    body
}

/// The body of a listing of a directory: the names that the listing shows,
/// sorted, one per line.
pub fn listing_body(names: Vec<String>, with_hidden: bool) -> (body: String)
    ensures
        lists(body@, shown(views(names@), with_hidden)),
{
    let mut visible = visible_names(names, with_hidden);
    sort_names(&mut visible);
    join_lines(&visible)
}

/// The body of the listing of a collection, given the names of the files in
/// its directory. The files of `anga` and `meta` that start with a dot are
/// not shown; those of a sub-directory of `words` are all shown.
pub fn list_files(collection: &Collection, names: Vec<String>) -> (body: String)
    ensures
        lists(body@, shown(views(names@), collection@ is Words)),
{
    let with_hidden = match collection {
        Collection::Words(_) => true,
        _ => false,
    };
    listing_body(names, with_hidden)
}

/// The body of the listing of `words`, given the names of its
/// sub-directories. Those that start with a dot are not shown.
pub fn list_words_dirs(names: Vec<String>) -> (body: String)
    ensures
        lists(body@, shown(views(names@), false)),
{
    listing_body(names, false)
}

} // verus!
