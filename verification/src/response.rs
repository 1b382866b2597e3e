//! Answering a request: the three routes and the answer for any other path.

use crate::method::is_word;
use crate::request::{lines_of, HttpRequest, RequestText};
use crate::text::chars::{chars_of, slice, string_of};
use crate::text::decimal::{decimal, decimal_text, lemma_decimal, number_of};
use crate::text::search::{
    contains, has, lemma_without_prefix, matches_at, occurs_at, remove_all, without,
};
use crate::text::space::{is_space, lemma_trimmed_same, trim, trimmed};
use vstd::prelude::*;
use vstd::string::*;
use vstd::utf8::{encode_utf8, is_ascii_chars, is_ascii_chars_encode_utf8};

verus! {

/// The mark of the echo route: a path of that route begins with it.
pub open spec fn echo_mark() -> Seq<char> {
    "/echo/"@
}

/// Whether a path belongs to the echo route.
pub open spec fn is_echo(path: Seq<char>) -> bool {
    occurs_at(path, echo_mark(), 0)
}

/// What follows the mark in a path of the echo route.
pub open spec fn echo_text(path: Seq<char>) -> Seq<char>
    recommends
        is_echo(path),
{
    path.subrange(echo_mark().len() as int, path.len() as int)
}

/// The mark of the header that names the client.
pub open spec fn agent_mark() -> Seq<char> {
    "User-Agent: "@
}

/// The index of the first header at or after `i` in which `agent_mark`
/// stands; the number of headers where there is none.
pub open spec fn agent_from(headers: Seq<Seq<char>>, i: int) -> int
    decreases headers.len() - i,
{
    if i < 0 || i >= headers.len() {
        headers.len() as int
    } else if contains(headers[i], agent_mark()) {
        i
    } else {
        agent_from(headers, i + 1)
    }
}

/// Whether a request has an answer: every request but one for `/user-agent`
/// that has no header naming the client.
pub open spec fn answerable(req: RequestText) -> bool {
    ||| is_echo(req.path)
    ||| req.path != "/user-agent"@
    ||| agent_from(req.headers, 0) < req.headers.len()
}

/// The answer that carries `body` as plain text: status line, content type,
/// the length of `body` in bytes of UTF-8, an empty line and `body`.
pub open spec fn ok_with(body: Seq<char>) -> Seq<char> {
    "HTTP/1.1 200 OK\r\n"@ + "Content-Type: text/plain\r\n"@ + "Content-Length: "@ + decimal(
        encode_utf8(body).len(),
    ) + "\r\n"@ + "\r\n"@ + body
}

/// The answer to a request.
///
/// A path that begins with `/echo/` is answered with what follows `/echo/`,
/// as it stands. The path `/user-agent` is answered with the first header in
/// which `User-Agent: ` stands, trimmed and with every `User-Agent: ` left
/// out. The path `/` is answered with an empty 200, and any other path with
/// 404.
pub open spec fn response_to(req: RequestText) -> Seq<char> {
    if is_echo(req.path) {
        ok_with(echo_text(req.path))
    } else if req.path == "/user-agent"@ {
        ok_with(without(trimmed(req.headers[agent_from(req.headers, 0)]), agent_mark()))
    } else if req.path == "/"@ {
        "HTTP/1.1 200 OK\r\n"@ + "\r\n"@
    } else {
        "HTTP/1.1 404 NOT FOUND\r\n\r\n"@
    }
}

/// The index of the first header that names the client, or the number of
/// headers.
pub fn find_agent(headers: &Vec<String>) -> (at: usize)
    ensures
        at == agent_from(lines_of(headers@), 0),
        at <= headers.len(),
{
    let mark = chars_of("User-Agent: ");
    let mut i: usize = 0;
    while i < headers.len()
        invariant
            i <= headers.len(),
            mark@ == agent_mark(),
            agent_from(lines_of(headers@), i as int) == agent_from(lines_of(headers@), 0),
        decreases headers.len() - i,
    {
        let line = chars_of(headers[i].as_str());
        assert(lines_of(headers@)[i as int] == line@);
        if has(&line, &mark) {
            return i;
        }
        i += 1;
    }
    i
}

/// Whether `handle_response` has an answer to this request.
pub fn has_response(request: &HttpRequest) -> (r: bool)
    ensures
        r == answerable(request@),
{
    let path = chars_of(request.path.as_str());
    let echo = chars_of("/echo/");
    matches_at(&path, &echo, 0) || !is_word(&path, "/user-agent") || find_agent(&request.headers)
        < request.headers.len()
}

/// Writes the answer that carries `body` as plain text.
pub fn ok_response(body: &Vec<char>) -> (response: String)
    ensures
        response@ == ok_with(body@),
{
    let text = string_of(body);
    let bytes = text.as_str().as_bytes();
    let length = string_of(&decimal_text(bytes.len()));
    let mut response = String::from_str("HTTP/1.1 200 OK\r\n");
    response.append("Content-Type: text/plain\r\n");
    response.append("Content-Length: ");
    response.append(length.as_str());
    response.append("\r\n");
    response.append("\r\n");
    response.append(text.as_str());
    response
}

/// Answers a request. A request for `/user-agent` must carry a header that
/// names the client: `has_response` tells whether it does.
pub fn handle_response(request: HttpRequest) -> (response: String)
    requires
        answerable(request@),
    ensures
        response@ == response_to(request@),
{
    let path = chars_of(request.path.as_str());
    let echo = chars_of("/echo/");
    if matches_at(&path, &echo, 0) {
        let body = slice(&path, echo.len(), path.len());
        return ok_response(&body);
    }
    if is_word(&path, "/user-agent") {
        let at = find_agent(&request.headers);
        let line = chars_of(request.headers[at].as_str());
        assert(lines_of(request.headers@)[at as int] == line@);
        let mark = chars_of("User-Agent: ");
        let body = remove_all(&trim(&line), &mark);
        return ok_response(&body);
    }
    if is_word(&path, "/") {
        let mut response = String::from_str("HTTP/1.1 200 OK\r\n");
        response.append("\r\n");
        return response;
    }
    String::from_str("HTTP/1.1 404 NOT FOUND\r\n\r\n")
}

/// `agent_from` gives the first header at or after `i` in which
/// `agent_mark` stands.
pub proof fn lemma_agent_from(headers: Seq<Seq<char>>, i: int)
    requires
        0 <= i <= headers.len(),
    ensures
        i <= agent_from(headers, i) <= headers.len(),
        agent_from(headers, i) < headers.len() ==> contains(
            headers[agent_from(headers, i)],
            agent_mark(),
        ),
        forall|k: int| i <= k < agent_from(headers, i) ==> !contains(#[trigger] headers[k], agent_mark()),
    decreases headers.len() - i,
{
    if i < headers.len() && !contains(headers[i], agent_mark()) {
        lemma_agent_from(headers, i + 1);
    }
}

/// The echo route returns what follows `/echo/` as it stands: a path made of
/// `/echo/` and any text is answered with that text.
pub proof fn lemma_echo_suffix(req: RequestText, suffix: Seq<char>)
    requires
        req.path == echo_mark() + suffix,
    ensures
        is_echo(req.path),
        response_to(req) == ok_with(suffix),
{
    let n = echo_mark().len() as int;
    assert(req.path.subrange(0, n) =~= echo_mark());
    assert(req.path.subrange(n, req.path.len() as int) =~= suffix);
}

/// A path of the echo route is the mark followed by the text that is
/// returned.
pub proof fn lemma_echo_path(path: Seq<char>)
    requires
        is_echo(path),
    ensures
        path == echo_mark() + echo_text(path),
{
    assert(path =~= path.subrange(0, echo_mark().len() as int) + echo_text(path));
}

/// The route `/user-agent` returns the client's name: where the first header
/// in which `User-Agent: ` stands is made of `User-Agent: ` and a text that
/// is not empty, in which it does not stand, and which does not end in
/// whitespace, the answer carries that text.
pub proof fn lemma_user_agent_value(req: RequestText, at: int, value: Seq<char>)
    requires
        req.path == "/user-agent"@,
        0 <= at < req.headers.len(),
        forall|k: int| 0 <= k < at ==> !contains(#[trigger] req.headers[k], agent_mark()),
        req.headers[at] == agent_mark() + value,
        !contains(value, agent_mark()),
        value.len() > 0,
        !is_space(value.last()),
    ensures
        answerable(req),
        response_to(req) == ok_with(value),
{
    lemma_routes_apart();
    let line = req.headers[at];
    let mark = agent_mark();
    assert(line.subrange(0, mark.len() as int) =~= mark);
    assert(occurs_at(line, mark, 0));
    lemma_agent_from(req.headers, 0);
    assert(agent_from(req.headers, 0) == at);
    assert(mark.len() > 0 && !is_space(mark[0])) by {
        reveal_strlit("User-Agent: ");
    }
    assert(line[0] == mark[0]);
    assert(line.last() == value.last());
    lemma_trimmed_same(line);
    lemma_without_prefix(mark, value);
}

/// The paths `/user-agent` and `/` do not belong to the echo route, so the
/// three routes exclude one another.
pub proof fn lemma_routes_apart()
    ensures
        !is_echo("/user-agent"@),
        !is_echo("/"@),
        "/user-agent"@ != "/"@,
{
    reveal_strlit("/user-agent");
    reveal_strlit("/echo/");
    reveal_strlit("/");
    let path = "/user-agent"@;
    if is_echo(path) {
        assert(path.subrange(0, 6)[1] == 'e');
    }
    assert("/"@.len() == 1 && path.len() == 11);
}

/// Whether a path is one of the three routes.
pub open spec fn is_route(path: Seq<char>) -> bool {
    ||| is_echo(path)
    ||| path == "/user-agent"@
    ||| path == "/"@
}

/// An answer begins with the status line `HTTP/1.1 200 OK` where the path is
/// a route; for any other path it is the one answer `404 NOT FOUND`.
pub proof fn lemma_status(req: RequestText)
    ensures
        is_route(req.path) ==> response_to(req).len() >= 17 && response_to(req).subrange(0, 17)
            == "HTTP/1.1 200 OK\r\n"@,
        !is_route(req.path) ==> response_to(req) == "HTTP/1.1 404 NOT FOUND\r\n\r\n"@,
        is_route(req.path) <==> response_to(req) != "HTTP/1.1 404 NOT FOUND\r\n\r\n"@,
{
    reveal_strlit("HTTP/1.1 200 OK\r\n");
    reveal_strlit("HTTP/1.1 404 NOT FOUND\r\n\r\n");
    let ok = "HTTP/1.1 200 OK\r\n"@;
    let r = response_to(req);
    if is_route(req.path) {
        assert(r.len() >= 17 && r.subrange(0, 17) =~= ok);
        assert(r.subrange(0, 17)[9] == '2');
        assert("HTTP/1.1 404 NOT FOUND\r\n\r\n"@[9] == '4');
    }
}

/// The length that an answer states, read as a number, is the number of
/// bytes of its body in UTF-8; for a body of ASCII characters that is the
/// number of its characters.
pub proof fn lemma_content_length(body: Seq<char>)
    ensures
        number_of(decimal(encode_utf8(body).len())) == encode_utf8(body).len(),
        is_ascii_chars(body) ==> encode_utf8(body).len() == body.len(),
{
    lemma_decimal(encode_utf8(body).len());
    if is_ascii_chars(body) {
        is_ascii_chars_encode_utf8(body);
    }
}

} // verus!
