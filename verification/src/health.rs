//! Health probing of the local web service: the request that is sent, the
//! check that the reply is HTTP at all, and whether it comes from the service.
use vstd::prelude::*;
use crate::text::{
    chars_of, contains_chars, contains_seq, decimal, find_chars, first_occurrence, has_prefix,
    lemma_first_occurrence_occurs, occurs_at,
    push_decimal, starts_with_chars, string_of_range,
};

verus! {

/// What `String::from_utf8_lossy` makes of `bytes`.
pub uninterp spec fn utf8_lossy(bytes: Seq<u8>) -> Seq<char>;

/// What `str::to_lowercase` makes of `s`.
pub uninterp spec fn lowercase(s: Seq<char>) -> Seq<char>;

/// `String::from_utf8_lossy(bytes)`: a string whatever the bytes; when they
/// are valid UTF-8 it is exactly the text they encode.
#[verifier::external_body]
pub(crate) fn decode_lossy(bytes: &[u8]) -> (s: String)
    ensures
        s@ == utf8_lossy(bytes@),
        vstd::utf8::valid_utf8(bytes@) ==> s@ == vstd::utf8::decode_utf8(bytes@),
{
    String::from_utf8_lossy(bytes).into_owned()
}

/// The lowercase form of an ASCII character (`A`..`Z` to `a`..`z`).
pub open spec fn ascii_lower(c: char) -> char {
    if 65 <= (c as u32) <= 90 {
        ((c as u32) + 32) as char
    } else {
        c
    }
}

/// `str::to_lowercase(s)`: the Unicode lowercase mapping of `s`; on ASCII
/// text it lowercases the letters `A`..`Z` and keeps every other character.
#[verifier::external_body]
fn to_lowercase(s: &str) -> (r: String)
    ensures
        r@ == lowercase(s@),
        (forall|i: int| 0 <= i < s@.len() ==> (s@[i] as u32) < 128) ==> r@ == s@.map_values(
            |c: char| ascii_lower(c),
        ),
{
    s.to_lowercase()
}

/// The health request for `path` on `127.0.0.1:port`.
pub open spec fn request_text(port: u16, path: Seq<char>) -> Seq<char> {
    "GET "@ + path + " HTTP/1.1\r\nHost: 127.0.0.1:"@ + decimal(port as nat)
        + "\r\nConnection: close\r\nUser-Agent: dsh-desktop-launcher\r\n\r\n"@
}

/// The HTTP/1.1 `GET` request for `path` sent to `127.0.0.1:port`, asking the
/// server to close the connection after replying.
pub fn http_request_text(port: u16, path: &str) -> (req: String)
    ensures
        req@ == request_text(port, path@),
{
    let mut req = String::from_str("GET ");
    req.append(path);
    req.append(" HTTP/1.1\r\nHost: 127.0.0.1:");
    push_decimal(&mut req, port as u64);
    req.append("\r\nConnection: close\r\nUser-Agent: dsh-desktop-launcher\r\n\r\n");
    req
}

/// The outcome of reading `text` as an HTTP reply: the text itself when it
/// starts like an HTTP/1.x status line, an error otherwise.
pub open spec fn reply_check(text: Seq<char>) -> Result<Seq<char>, Seq<char>> {
    if has_prefix(text, "HTTP/1."@) {
        Ok(text)
    } else {
        Err("非 HTTP 响应"@)
    }
}

/// A `Result` of strings seen as a `Result` of character sequences.
pub open spec fn result_view(r: Result<String, String>) -> Result<Seq<char>, Seq<char>> {
    match r {
        Ok(t) => Ok(t@),
        Err(e) => Err(e@),
    }
}

/// Accepts `text` as an HTTP reply when it starts with `HTTP/1.`.
pub fn check_http_response(text: String) -> (r: Result<String, String>)
    ensures
        result_view(r) == reply_check(text@),
{
    let cs = chars_of(text.as_str());
    let prefix = chars_of("HTTP/1.");
    if starts_with_chars(&cs, &prefix) {
        Ok(text)
    } else {
        Err(String::from_str("非 HTTP 响应"))
    }
}

/// The raw bytes of a reply, decoded (invalid UTF-8 replaced) and checked to
/// be an HTTP/1.x reply.
pub fn http_response(raw: &[u8]) -> (r: Result<String, String>)
    ensures
        result_view(r) == reply_check(utf8_lossy(raw@)),
{
    let text = decode_lossy(raw);
    check_http_response(text)
}

/// The end of a reply's headers.
pub open spec fn header_end() -> Seq<char> {
    seq!['\r', '\n', '\r', '\n']
}

/// The body of a reply: what follows the first blank line (`\r\n\r\n`);
/// empty when there is none.
pub open spec fn reply_body(text: Seq<char>) -> Seq<char> {
    match first_occurrence(text, header_end()) {
        Some(i) => text.skip(i + 4),
        None => Seq::<char>::empty(),
    }
}

/// The body of the reply `text`.
pub fn body_of(text: &str) -> (body: String)
    ensures
        body@ == reply_body(text@),
{
    let cs = chars_of(text);
    let mut sep: Vec<char> = Vec::new();
    sep.push('\r');
    sep.push('\n');
    sep.push('\r');
    sep.push('\n');
    assert(sep@ =~= header_end());
    let found = find_chars(&cs, &sep);
    match found {
        Some(i) => {
            assert(first_occurrence(cs@, header_end()) == Some(i as int));
            assert(occurs_at(cs@, header_end(), i as int)) by {
                lemma_first_occurrence_occurs(cs@, header_end());
            }
            assert(header_end().len() == 4);
            assert(i + 4 <= cs.len());
            let b = string_of_range(&cs, i + 4, cs.len());
            assert(cs@.subrange(i + 4, cs@.len() as int) =~= cs@.skip(i + 4));
            b
        },
        None => String::new(),
    }
}

/// A reply comes from the service: status 200 over HTTP/1.1 or HTTP/1.0, and
/// its lowercased body `lowered` names the service (`dsh`, `deepseek` or
/// `harness`).
pub open spec fn healthy_reply(text: Seq<char>, lowered: Seq<char>) -> bool {
    &&& (has_prefix(text, "HTTP/1.1 200"@) || has_prefix(text, "HTTP/1.0 200"@))
    &&& (contains_seq(lowered, "dsh"@) || contains_seq(lowered, "deepseek"@) || contains_seq(
        lowered,
        "harness"@,
    ))
}

/// Whether the reply `text`, whose body in lowercase is `lowered`, comes from
/// the service.
pub fn reply_is_healthy(text: &str, lowered: &str) -> (b: bool)
    ensures
        b == healthy_reply(text@, lowered@),
{
    let t = chars_of(text);
    let l = chars_of(lowered);
    let ok11 = starts_with_chars(&t, &chars_of("HTTP/1.1 200"));
    let ok10 = starts_with_chars(&t, &chars_of("HTTP/1.0 200"));
    let named = contains_chars(&l, &chars_of("dsh")) || contains_chars(&l, &chars_of("deepseek"))
        || contains_chars(&l, &chars_of("harness"));
    (ok11 || ok10) && named
}

/// Whether the port answered as the service: the outcome of the health
/// request is a 200 reply whose lowercased body names the service; a failed
/// request is not healthy.
pub fn is_dsh_healthy(resp: &Result<String, String>) -> (b: bool)
    ensures
        b == match resp {
            Ok(t) => healthy_reply(t@, lowercase(reply_body(t@))),
            Err(_) => false,
        },
{
    match resp {
        Ok(t) => {
            let body = body_of(t.as_str());
            let lowered = to_lowercase(body.as_str());
            reply_is_healthy(t.as_str(), lowered.as_str())
        },
        Err(_) => false,
    }
}

/// A 200 reply is healthy as soon as its lowered body names the service
/// (`dsh`, `deepseek` or `harness`) at any position `at`, however far into
/// the body; and a reply is healthy only when it is a 200 reply whose body
/// names the service at some position.
pub proof fn lemma_service_named_anywhere(text: Seq<char>, lowered: Seq<char>, name: Seq<char>, at: int)
    requires
        has_prefix(text, "HTTP/1.1 200"@) || has_prefix(text, "HTTP/1.0 200"@),
        name == "dsh"@ || name == "deepseek"@ || name == "harness"@,
        0 <= at,
        at + name.len() <= lowered.len(),
        lowered.subrange(at, at + name.len()) == name,
    ensures
        healthy_reply(text, lowered),
{
    assert(occurs_at(lowered, name, at));
}

/// A healthy reply starts with a 200 status line and names the service
/// somewhere in its lowered body.
pub proof fn lemma_healthy_reply_names_service(text: Seq<char>, lowered: Seq<char>)
    requires
        healthy_reply(text, lowered),
    ensures
        has_prefix(text, "HTTP/1.1 200"@) || has_prefix(text, "HTTP/1.0 200"@),
        exists|name: Seq<char>, at: int|
            (name == "dsh"@ || name == "deepseek"@ || name == "harness"@) && 0 <= at && at + name.len()
                <= lowered.len() && #[trigger] lowered.subrange(at, at + name.len()) == name,
{
    if contains_seq(lowered, "dsh"@) {
        let at = choose|at: int| occurs_at(lowered, "dsh"@, at);
        assert(lowered.subrange(at, at + "dsh"@.len()) == "dsh"@);
    } else if contains_seq(lowered, "deepseek"@) {
        let at = choose|at: int| occurs_at(lowered, "deepseek"@, at);
        assert(lowered.subrange(at, at + "deepseek"@.len()) == "deepseek"@);
    } else {
        let at = choose|at: int| occurs_at(lowered, "harness"@, at);
        assert(lowered.subrange(at, at + "harness"@.len()) == "harness"@);
    }
}

/// The body of a reply is everything after its first blank line, however
/// long: headers without a carriage return, the blank line `\r\n\r\n`, then
/// `body` give exactly `body`.
pub proof fn lemma_body_follows_blank_line(head: Seq<char>, body: Seq<char>)
    requires
        forall|i: int| 0 <= i < head.len() ==> head[i] != '\r',
    ensures
        reply_body(head + header_end() + body) == body,
{
    let t = head + header_end() + body;
    let k = head.len() as int;
    assert(t.subrange(k, k + 4) =~= header_end());
    assert(occurs_at(t, header_end(), k));
    assert forall|j: int| 0 <= j < k implies !occurs_at(t, header_end(), j) by {
        if occurs_at(t, header_end(), j) {
            assert(t.subrange(j, j + 4)[0] == t[j]);
            assert(t[j] == head[j]);
        }
    }
    crate::text::lemma_first_occurrence(t, header_end(), k);
    assert(t.skip(k + 4) =~= body);
}

} // verus!
