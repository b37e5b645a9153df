//! Detection of Docker endpoints that hijack the HTTP connection, from the
//! first bytes a client sends.

use vstd::prelude::*;
use vstd::string::StrSliceExecFns;
use vstd::utf8::{decode_utf8, valid_utf8};

use crate::docker::{container_route_of, match_container_get, GetMatch};
use crate::proxy::AdmissionAction;
use crate::text::{chars_of, is_substring, lemma_substring_iff_split, str_contains};

verus! {

/// Endpoints that turn the HTTP connection into a raw stream: `exec/<id>/start`,
/// and `attach` except its websocket variant.
pub open spec fn upgrade_path(path: Seq<char>) -> bool {
    ||| is_substring("/exec/"@, path) && is_substring("/start"@, path)
    ||| is_substring("/attach"@, path) && !is_substring("/attach/ws"@, path)
}

/// A connection hijacks exactly when its path holds `/exec/` and `/start`, or holds
/// `/attach` but not `/attach/ws`, wherever they stand.
pub proof fn lemma_upgrade_meaning(path: Seq<char>)
    ensures
        upgrade_path(path) <==> {
            ||| (exists|a: Seq<char>, b: Seq<char>| path == a + "/exec/"@ + b) && (exists|a: Seq<char>, b: Seq<char>|
                path == a + "/start"@ + b)
            ||| (exists|a: Seq<char>, b: Seq<char>| path == a + "/attach"@ + b) && !(exists|a: Seq<char>, b: Seq<char>|
                path == a + "/attach/ws"@ + b)
        },
{
    lemma_substring_iff_split("/exec/"@, path);
    lemma_substring_iff_split("/start"@, path);
    lemma_substring_iff_split("/attach"@, path);
    lemma_substring_iff_split("/attach/ws"@, path);
}

/// Whether `path` names an endpoint that needs connection hijacking.
pub fn is_upgrade_path(path: &str) -> (r: bool)
    ensures
        r == upgrade_path(path@),
{
    if str_contains(path, "/exec/") && str_contains(path, "/start") {
        return true;
    }
    if str_contains(path, "/attach") && !str_contains(path, "/attach/ws") {
        return true;
    }
    false
}

/// The characters with the Unicode `White_Space` property.
pub open spec fn is_ws(c: char) -> bool {
    let u = c as u32;
    ||| 0x09 <= u <= 0x0D
    ||| u == 0x20
    ||| u == 0x85
    ||| u == 0xA0
    ||| u == 0x1680
    ||| 0x2000 <= u <= 0x200A
    ||| u == 0x2028
    ||| u == 0x2029
    ||| u == 0x202F
    ||| u == 0x205F
    ||| u == 0x3000
}

/// Whether `c` is white space, as `char::is_whitespace`.
pub fn is_whitespace(c: char) -> (b: bool)
    ensures
        b == is_ws(c),
{
    let u = c as u32;
    (0x09 <= u && u <= 0x0D) || u == 0x20 || u == 0x85 || u == 0xA0 || u == 0x1680 || (0x2000 <= u && u
        <= 0x200A) || u == 0x2028 || u == 0x2029 || u == 0x202F || u == 0x205F || u == 0x3000
}

/// First position at or after `i` that is not white space (or the end).
pub open spec fn skip_ws(s: Seq<char>, i: int) -> int
    decreases s.len() - i,
{
    if i < 0 || i >= s.len() || !is_ws(s[i]) {
        i
    } else {
        skip_ws(s, i + 1)
    }
}

/// First position at or after `i` that is white space (or the end).
pub open spec fn token_end(s: Seq<char>, i: int) -> int
    decreases s.len() - i,
{
    if i < 0 || i >= s.len() || is_ws(s[i]) {
        i
    } else {
        token_end(s, i + 1)
    }
}

/// The first two white-space separated words of `s`, if it has two.
pub open spec fn first_two_words(s: Seq<char>) -> Option<(Seq<char>, Seq<char>)> {
    let a = skip_ws(s, 0);
    let b = token_end(s, a);
    let c = skip_ws(s, b);
    let d = token_end(s, c);
    if a >= s.len() || c >= s.len() {
        None
    } else {
        Some((s.subrange(a, b), s.subrange(c, d)))
    }
}

/// The run from `i` up to `token_end(s, i)` holds no white space, and stays inside `s`.
proof fn lemma_token_run(s: Seq<char>, i: int)
    requires
        0 <= i <= s.len(),
    ensures
        i <= token_end(s, i) <= s.len(),
        forall|k: int| i <= k < token_end(s, i) ==> !is_ws(#[trigger] s[k]),
        token_end(s, i) < s.len() ==> is_ws(s[token_end(s, i)]),
    decreases s.len() - i,
{
    if i < s.len() && !is_ws(s[i]) {
        lemma_token_run(s, i + 1);
    }
}

/// `skip_ws(s, i)` stays inside `s` and lands on a non-white-space character unless at the end.
proof fn lemma_skip_run(s: Seq<char>, i: int)
    requires
        0 <= i <= s.len(),
    ensures
        i <= skip_ws(s, i) <= s.len(),
        skip_ws(s, i) < s.len() ==> !is_ws(s[skip_ws(s, i)]),
    decreases s.len() - i,
{
    if i < s.len() && is_ws(s[i]) {
        lemma_skip_run(s, i + 1);
    }
}

/// The two words read from a request line are non-empty and hold no white space.
pub proof fn lemma_words_are_words(s: Seq<char>)
    requires
        first_two_words(s) is Some,
    ensures
        ({
            let (m, p) = first_two_words(s)->0;
            &&& m.len() > 0
            &&& p.len() > 0
            &&& forall|k: int| 0 <= k < m.len() ==> !is_ws(#[trigger] m[k])
            &&& forall|k: int| 0 <= k < p.len() ==> !is_ws(#[trigger] p[k])
        }),
{
    let a = skip_ws(s, 0);
    lemma_skip_run(s, 0);
    let b = token_end(s, a);
    lemma_token_run(s, a);
    let c = skip_ws(s, b);
    lemma_skip_run(s, b);
    let d = token_end(s, c);
    lemma_token_run(s, c);
    assert(a < s.len() && !is_ws(s[a]));
    assert(token_end(s, a) == token_end(s, a + 1));
    lemma_token_run(s, a + 1);
    assert(token_end(s, c) == token_end(s, c + 1));
    lemma_token_run(s, c + 1);
    let (m, p) = first_two_words(s)->0;
    assert forall|k: int| 0 <= k < m.len() implies !is_ws(#[trigger] m[k]) by {
        assert(m[k] == s[a + k]);
    }
    assert forall|k: int| 0 <= k < p.len() implies !is_ws(#[trigger] p[k]) by {
        assert(p[k] == s[c + k]);
    }
}

/// The two words are the first two white-space separated runs of the line: the
/// line is some white space, the method, some white space (at least one
/// character), the path, and a rest that is empty or begins with white space.
pub proof fn lemma_words_are_first_two(s: Seq<char>)
    requires
        first_two_words(s) is Some,
    ensures
        ({
            let (m, p) = first_two_words(s)->0;
            exists|w0: Seq<char>, w1: Seq<char>, rest: Seq<char>|
                #![trigger w0 + m + w1 + p + rest]
                s == w0 + m + w1 + p + rest && (forall|k: int| 0 <= k < w0.len() ==> is_ws(#[trigger] w0[k]))
                    && w1.len() > 0 && (forall|k: int| 0 <= k < w1.len() ==> is_ws(#[trigger] w1[k])) && (rest.len()
                    == 0 || is_ws(rest[0]))
        }),
{
    lemma_words_are_words(s);
    let a = skip_ws(s, 0);
    lemma_skip_ws_run(s, 0);
    let b = token_end(s, a);
    lemma_token_run(s, a);
    let c = skip_ws(s, b);
    lemma_skip_ws_run(s, b);
    let d = token_end(s, c);
    lemma_token_run(s, c);
    let (m, p) = first_two_words(s)->0;
    let w0 = s.subrange(0, a);
    let w1 = s.subrange(b, c);
    let rest = s.subrange(d, s.len() as int);
    assert(s =~= w0 + m + w1 + p + rest);
    assert forall|k: int| 0 <= k < w0.len() implies is_ws(#[trigger] w0[k]) by {
        assert(w0[k] == s[k]);
    }
    assert forall|k: int| 0 <= k < w1.len() implies is_ws(#[trigger] w1[k]) by {
        assert(w1[k] == s[b + k]);
    }
    assert(b < s.len() ==> is_ws(s[b]));
    assert(b < c);
    if rest.len() > 0 {
        assert(rest[0] == s[d]);
    }
    assert(s == w0 + m + w1 + p + rest);
}

/// Every position from `i` up to `skip_ws(s, i)` holds white space.
proof fn lemma_skip_ws_run(s: Seq<char>, i: int)
    requires
        0 <= i <= s.len(),
    ensures
        i <= skip_ws(s, i) <= s.len(),
        forall|k: int| i <= k < skip_ws(s, i) ==> is_ws(#[trigger] s[k]),
        skip_ws(s, i) < s.len() ==> !is_ws(s[skip_ws(s, i)]),
    decreases s.len() - i,
{
    if i < s.len() && is_ws(s[i]) {
        lemma_skip_ws_run(s, i + 1);
    }
}

/// A CR LF pair starts at position `i` of `buf`.
pub open spec fn crlf_at(buf: Seq<u8>, i: int) -> bool {
    0 <= i && i + 1 < buf.len() && buf[i] == 13 && buf[i + 1] == 10
}

/// Position of the first CR LF in `buf`, where the request line (the head of the
/// peeked request) ends (meaningful when there is one).
pub open spec fn first_crlf(buf: Seq<u8>) -> int {
    choose|i: int| crlf_at(buf, i) && forall|j: int| 0 <= j < i ==> !crlf_at(buf, j)
}

/// Method and path of the request line that `buf` begins with: the text before
/// the first CR LF, read as UTF-8, split at white space.
pub open spec fn request_line_of(buf: Seq<u8>) -> Option<(Seq<char>, Seq<char>)> {
    if exists|i: int| crlf_at(buf, i) {
        let line = buf.subrange(0, first_crlf(buf));
        if valid_utf8(line) {
            first_two_words(decode_utf8(line))
        } else {
            None
        }
    } else {
        None
    }
}

/// The first CR LF of `line + CR LF + rest`, for a line without CR LF, is the one after the line.
proof fn lemma_first_crlf_after_line(line: Seq<u8>, rest: Seq<u8>)
    requires
        forall|i: int| 0 <= i < line.len() - 1 ==> !(#[trigger] line[i] == 13 && line[i + 1] == 10),
        line.len() == 0 || line.last() != 13,
    ensures
        crlf_at(line + seq![13u8, 10u8] + rest, line.len() as int),
        first_crlf(line + seq![13u8, 10u8] + rest) == line.len(),
{
    let buf = line + seq![13u8, 10u8] + rest;
    let n = line.len() as int;
    assert(buf[n] == 13u8 && buf[n + 1] == 10u8);
    assert forall|j: int| 0 <= j < n implies !crlf_at(buf, j) by {
        assert(buf[j] == line[j]);
        if j + 1 < n {
            assert(buf[j + 1] == line[j + 1]);
        } else {
            assert(line.last() == line[j]);
        }
    }
    let i = first_crlf(buf);
    assert(crlf_at(buf, n) && forall|j: int| 0 <= j < n ==> !crlf_at(buf, j));
    if i < n {
        assert(!crlf_at(buf, i));
    } else if i > n {
        assert(!crlf_at(buf, n));
    }
}

/// A request that starts with a line free of CR LF, followed by CR LF, has that
/// line as its request line: the method and path are the line's first two words
/// when it is valid UTF-8, and there is no request line otherwise.
pub proof fn lemma_request_line_meaning(line: Seq<u8>, rest: Seq<u8>)
    requires
        forall|i: int| 0 <= i < line.len() - 1 ==> !(#[trigger] line[i] == 13 && line[i + 1] == 10),
        line.len() == 0 || line.last() != 13,
    ensures
        first_crlf(line + seq![13u8, 10u8] + rest) == line.len(),
        request_line_of(line + seq![13u8, 10u8] + rest) == if valid_utf8(line) {
            first_two_words(decode_utf8(line))
        } else {
            None
        },
{
    lemma_first_crlf_after_line(line, rest);
    let buf = line + seq![13u8, 10u8] + rest;
    assert(buf.subrange(0, line.len() as int) =~= line);
}

/// Reads `bytes` as UTF-8 with `std::str::from_utf8`, which succeeds exactly on
/// valid UTF-8 and then yields the encoded characters.
#[verifier::external_body]
fn utf8_str(bytes: &[u8]) -> (r: Option<&str>)
    ensures
        r is Some <==> valid_utf8(bytes@),
        r matches Some(s) ==> s@ == decode_utf8(bytes@),
{
    std::str::from_utf8(bytes).ok()
}

/// Position of the first CR LF in `buf`, if any.
fn find_crlf(buf: &[u8]) -> (r: Option<usize>)
    ensures
        match r {
            Some(i) => crlf_at(buf@, i as int) && forall|j: int| 0 <= j < i ==> !crlf_at(buf@, j),
            None => forall|j: int| !crlf_at(buf@, j),
        },
{
    if buf.len() < 2 {
        return None;
    }
    let last = buf.len() - 1;
    let mut i: usize = 0;
    while i < last
        invariant
            last == buf@.len() - 1,
            forall|j: int| 0 <= j < i ==> !crlf_at(buf@, j),
        decreases buf@.len() - i,
    {
        if buf[i] == 13u8 && buf[i + 1] == 10u8 {
            return Some(i);
        }
        i += 1;
    }
    None
}

/// Skips white space in `s` from position `i`.
fn skip_ws_from(s: &Vec<char>, i: usize) -> (r: usize)
    requires
        i <= s@.len(),
    ensures
        r == skip_ws(s@, i as int),
        i <= r <= s@.len(),
{
    let mut k = i;
    while k < s.len() && is_whitespace(s[k])
        invariant
            i <= k <= s@.len(),
            skip_ws(s@, k as int) == skip_ws(s@, i as int),
        decreases s@.len() - k,
    {
        k += 1;
    }
    k
}

/// Finds the end of the word of `s` that starts at position `i`.
fn token_end_from(s: &Vec<char>, i: usize) -> (r: usize)
    requires
        i <= s@.len(),
    ensures
        r == token_end(s@, i as int),
        i <= r <= s@.len(),
{
    let mut k = i;
    while k < s.len() && !is_whitespace(s[k])
        invariant
            i <= k <= s@.len(),
            token_end(s@, k as int) == token_end(s@, i as int),
        decreases s@.len() - k,
    {
        k += 1;
    }
    k
}

/// The first two white-space separated words of `line`, as `split_whitespace`
/// would yield them, when there are two.
pub fn first_two_words_of(line: &str) -> (r: Option<(String, String)>)
    ensures
        match r {
            Some((m, p)) => first_two_words(line@) == Some((m@, p@)),
            None => first_two_words(line@) is None,
        },
{
    let cs = chars_of(line);
    let a = skip_ws_from(&cs, 0);
    if a >= cs.len() {
        return None;
    }
    let b = token_end_from(&cs, a);
    let c = skip_ws_from(&cs, b);
    if c >= cs.len() {
        return None;
    }
    let d = token_end_from(&cs, c);
    let method = line.substring_char(a, b).to_owned();
    let path = line.substring_char(c, d).to_owned();
    Some((method, path))
}

/// Method and path of the HTTP request line at the start of `buf`, with the
/// position where that line ends (its CR LF), when the line is complete, is UTF-8
/// and has at least two words.
pub fn peek_request_line(buf: &[u8]) -> (r: Option<(String, String, usize)>)
    ensures
        match r {
            Some((m, p, end)) => request_line_of(buf@) == Some((m@, p@)) && end == first_crlf(buf@)
                && crlf_at(buf@, end as int),
            None => request_line_of(buf@) is None,
        },
{
    let line_end = match find_crlf(buf) {
        Some(i) => i,
        None => {
            return None;
        },
    };
    proof {
        let w = first_crlf(buf@);
        assert(crlf_at(buf@, line_end as int));
        if w < line_end {
            assert(!crlf_at(buf@, w));
        } else if w > line_end {
            assert(!crlf_at(buf@, line_end as int));
        }
    }
    let bytes = vstd::slice::slice_subrange(buf, 0, line_end);
    let line = match utf8_str(bytes) {
        Some(s) => s,
        None => {
            return None;
        },
    };
    match first_two_words_of(line) {
        Some((method, path)) => Some((method, path, line_end)),
        None => None,
    }
}

/// Where a client connection is sent.
pub enum ConnectionPlan {
    /// To the internal HTTP handler, which applies the filters.
    HttpHandler,
    /// Straight to the upstream proxy as a raw byte stream.
    Tunnel,
    /// The connection hijacks an endpoint of this container: admit the container
    /// first (as the HTTP handler does), then tunnel it if it is admitted.
    AdmitThenTunnel(GetMatch),
}

/// Decides where a connection whose first bytes are `peeked` goes: every endpoint
/// that hijacks the connection is tunnelled, one that addresses a container after
/// that container is admitted; every other connection goes to the HTTP handler.
pub fn plan_connection(peeked: &[u8]) -> (p: ConnectionPlan)
    ensures
        match request_line_of(peeked@) {
            Some((_, path)) => if upgrade_path(path) {
                match container_route_of(path) {
                    Some((id, resource)) => p matches ConnectionPlan::AdmitThenTunnel(g) && g.id@ == id
                        && g.resource@ == resource,
                    None => p is Tunnel,
                }
            } else {
                p is HttpHandler
            },
            None => p is HttpHandler,
        },
{
    let path = match peek_request_line(peeked) {
        Some((_, path, _)) => path,
        None => {
            return ConnectionPlan::HttpHandler;
        },
    };
    if !is_upgrade_path(path.as_str()) {
        return ConnectionPlan::HttpHandler;
    }
    match match_container_get(path.as_str()) {
        Some(m) => ConnectionPlan::AdmitThenTunnel(m),
        None => ConnectionPlan::Tunnel,
    }
}

/// Where a hijacking connection for a container goes once its admission is
/// decided: tunnelled when admitted; otherwise to the HTTP handler, which answers
/// the refused container with 404 (and inspects anew one still unknown).
pub fn connection_after_admission(a: &AdmissionAction) -> (p: ConnectionPlan)
    ensures
        (p is Tunnel) == (*a is Admit),
        !(p is Tunnel) ==> p is HttpHandler,
{
    match a {
        AdmissionAction::Admit => ConnectionPlan::Tunnel,
        _ => ConnectionPlan::HttpHandler,
    }
}

} // verus!
