//! Reading a request: the request line and the header lines.

use crate::method::{method_of, name_of, HttpMethod};
use crate::text::chars::{chars_of, string_of};
use crate::text::search::{contains, find_from, lemma_find_from, occurs_at};
use crate::text::space::{is_clean_word, lemma_words, split_whitespace, words};
use crate::text::split::{
    lemma_first_piece, lemma_split_clear, lemma_split_first, lemma_split_whole, pieces, split,
    texts,
};
use vstd::prelude::*;
use vstd::string::*;

verus! {

/// A request as it was read: the three words of the request line, and the
/// lines that follow it.
pub struct HttpRequest {
    pub method: HttpMethod,
    pub path: String,
    pub version: String,
    pub headers: Vec<String>,
}

/// The characters that a request holds.
pub struct RequestText {
    pub method: HttpMethod,
    pub path: Seq<char>,
    pub version: Seq<char>,
    pub headers: Seq<Seq<char>>,
}

/// The characters of each line of a list.
pub open spec fn lines_of(v: Seq<String>) -> Seq<Seq<char>> {
    Seq::new(v.len(), |k: int| v[k]@)
}

impl View for HttpRequest {
    type V = RequestText;

    open spec fn view(&self) -> RequestText {
        RequestText {
            method: self.method,
            path: self.path@,
            version: self.version@,
            headers: lines_of(self.headers@),
        }
    }
}

/// The mark that ends the head of a request: an empty line, that is, two
/// line ends in a row.
pub open spec fn head_end() -> Seq<char> {
    "\r\n\r\n"@
}

/// The mark that ends a line: a carriage return and a line feed.
pub open spec fn line_end() -> Seq<char> {
    "\r\n"@
}

/// The lines of a request's head: what stands before the first `head_end`,
/// or the whole text where there is none, cut at each `line_end`.
pub open spec fn head_lines(text: Seq<char>) -> Seq<Seq<char>> {
    pieces(pieces(text, head_end())[0], line_end())
}

/// What a text reads as. The first line must hold at least three words,
/// which are the method, the path and the version; every further line of the
/// head is a header, kept as it stands.
pub open spec fn parsed(text: Seq<char>) -> Option<RequestText> {
    let lines = head_lines(text);
    let line = words(lines[0]);
    if line.len() >= 3 {
        Some(
            RequestText {
                method: method_of(line[0]),
                path: line[1],
                version: line[2],
                headers: lines.skip(1),
            },
        )
    } else {
        None
    }
}

/// Reads a request. It gives `None` exactly when the first line holds fewer
/// than three words.
pub fn parse_http_request(request: &str) -> (r: Option<HttpRequest>)
    ensures
        r is Some <==> words(head_lines(request@)[0]).len() >= 3,
        match r {
            Some(req) => parsed(request@) == Some(req@),
            None => parsed(request@) is None,
        },
{
    let text = chars_of(request);
    let head_mark = chars_of("\r\n\r\n");
    let line_mark = chars_of("\r\n");
    let parts = split(&text, &head_mark);
    assert(texts(parts@)[0] == parts@[0]@);
    let lines = split(&parts[0], &line_mark);
    assert(texts(lines@) == head_lines(request@));
    assert(texts(lines@)[0] == lines@[0]@);
    let line = split_whitespace(&lines[0]);
    assert(texts(line@) == words(head_lines(request@)[0]));
    if line.len() < 3 {
        return None;
    }
    assert(texts(line@)[0] == line@[0]@);
    assert(texts(line@)[1] == line@[1]@);
    assert(texts(line@)[2] == line@[2]@);
    let name = string_of(&line[0]);
    let method = HttpMethod::from_str(name.as_str());
    let path = string_of(&line[1]);
    let version = string_of(&line[2]);
    let mut headers: Vec<String> = Vec::new();
    let mut k: usize = 1;
    assert(lines_of(headers@) =~= texts(lines@).subrange(1, 1));
    while k < lines.len()
        invariant
            1 <= k <= lines.len(),
            lines_of(headers@) == texts(lines@).subrange(1, k as int),
        decreases lines.len() - k,
    {
        let ghost before = headers@;
        let header = string_of(&lines[k]);
        assert(texts(lines@)[k as int] == header@);
        headers.push(header);
        k += 1;
        assert(lines_of(headers@) =~= lines_of(before).push(header@));
        assert(texts(lines@).subrange(1, k as int) =~= texts(lines@).subrange(1, k - 1).push(
            header@,
        ));
    }
    assert(lines_of(headers@) =~= head_lines(request@).skip(1));
    Some(HttpRequest { method, path, version, headers })
}

/// The head of a request is what stands before the first `head_end`, or the
/// whole text where there is none.
pub proof fn lemma_head(text: Seq<char>)
    ensures
        pieces(text, head_end())[0] == text.take(find_from(text, head_end(), 0)),
{
    reveal_strlit("\r\n\r\n");
    lemma_first_piece(text, head_end(), 0);
    lemma_find_from(text, head_end(), 0);
}

/// The path and the version of a request that was read are not empty and
/// hold no whitespace.
pub proof fn lemma_parsed_fields(text: Seq<char>)
    ensures
        parsed(text) matches Some(req) ==> is_clean_word(req.path) && is_clean_word(req.version),
{
    lemma_words(head_lines(text)[0]);
}

/// The method of a request that was read is the one that the first word of
/// the request line names, so a method other than `UNKNOWN` shows that word.
pub proof fn lemma_parsed_method(text: Seq<char>)
    ensures
        parsed(text) matches Some(req) ==> req.method == HttpMethod::UNKNOWN || name_of(req.method)
            == words(head_lines(text)[0])[0],
{
}

/// No line of a request's head holds a line end, so neither does a header
/// of a request that was read.
pub proof fn lemma_parsed_headers(text: Seq<char>)
    ensures
        forall|n: int|
            0 <= n < head_lines(text).len() ==> !contains(
                #[trigger] head_lines(text)[n],
                line_end(),
            ),
        parsed(text) matches Some(req) ==> forall|n: int|
            0 <= n < req.headers.len() ==> !contains(#[trigger] req.headers[n], line_end()),
{
    reveal_strlit("\r\n");
    reveal_strlit("\r\n\r\n");
    lemma_first_piece(text, head_end(), 0);
    let head = pieces(text, head_end())[0];
    lemma_first_piece(head, line_end(), 0);
    lemma_split_clear(head, line_end());
    if let Some(req) = parsed(text) {
        assert forall|n: int| 0 <= n < req.headers.len() implies !contains(
            #[trigger] req.headers[n],
            line_end(),
        ) by {
            assert(req.headers[n] == head_lines(text)[n + 1]);
        }
    }
}

/// What follows the first empty line is not read: a text made of a head, an
/// empty line and a body, in which that empty line is the first, reads as
/// the head alone does, and its lines are the lines of the head.
pub proof fn lemma_body_is_not_read(head: Seq<char>, body: Seq<char>)
    requires
        find_from(head + head_end() + body, head_end(), 0) == head.len(),
    ensures
        head_lines(head + head_end() + body) == pieces(head, line_end()),
        parsed(head + head_end() + body) == parsed(head),
{
    reveal_strlit("\r\n\r\n");
    let text = head + head_end() + body;
    let n = head_end().len() as int;
    lemma_split_first(head, body, head_end());
    assert(pieces(text, head_end())[0] == head);
    lemma_find_from(text, head_end(), 0);
    assert forall|j: int| !occurs_at(head, head_end(), j) by {
        if occurs_at(head, head_end(), j) {
            assert(text.subrange(j, j + n) =~= head.subrange(j, j + n));
            assert(occurs_at(text, head_end(), j));
        }
    }
    lemma_split_whole(head, head_end());
    assert(pieces(head, head_end())[0] == head);
}

} // verus!
