use vstd::prelude::*;

use crate::error::RequestError;
use crate::headers::Headers;
use crate::text::{chars_of, find, find_in, lemma_find_from, text_of};

verus! {

/// The line break: carriage return, line feed.
pub open spec fn crlf() -> Seq<char> {
    seq!['\r', '\n']
}

/// What separates a header's key from its value.
pub open spec fn header_sep() -> Seq<char> {
    seq![':', ' ']
}

/// The lines of `s`: the pieces between line breaks, empty ones included.
pub open spec fn lines(s: Seq<char>) -> Seq<Seq<char>>
    decreases s.len(),
    via lines_decreases
{
    match find(s, crlf()) {
        Some(i) => seq![s.take(i)] + lines(s.skip(i + 2)),
        None => seq![s],
    }
}

#[via_fn]
proof fn lines_decreases(s: Seq<char>) {
    lemma_find_from(s, crlf(), 0);
}

/// Reads header lines in order: an empty line is skipped, any other line
/// must hold `": "`, and a later key overrides an earlier one.
pub open spec fn fold_headers(ls: Seq<Seq<char>>) -> Option<Map<Seq<char>, Seq<char>>>
    decreases ls.len(),
{
    if ls.len() == 0 {
        Some(Map::empty())
    } else {
        match fold_headers(ls.drop_last()) {
            None => None,
            Some(m) => {
                let l = ls.last();
                if l.len() == 0 {
                    Some(m)
                } else {
                    match find(l, header_sep()) {
                        Some(k) => Some(m.insert(l.take(k), l.skip(k + 2))),
                        None => None,
                    }
                }
            },
        }
    }
}

/// The header map that a header block describes, or `None` where one of
/// its lines is malformed.
pub open spec fn header_map(block: Seq<char>) -> Option<Map<Seq<char>, Seq<char>>> {
    fold_headers(lines(block))
}

/// Once a malformed line is met, no later line can mend it.
proof fn lemma_fold_none_stays(ls: Seq<Seq<char>>, more: Seq<Seq<char>>)
    requires
        fold_headers(ls) is None,
    ensures
        fold_headers(ls + more) is None,
    decreases more.len(),
{
    if more.len() > 0 {
        lemma_fold_none_stays(ls, more.drop_last());
        assert((ls + more).drop_last() =~= ls + more.drop_last());
    } else {
        assert(ls + more =~= ls);
    }
}

/// Header block with a non-empty line that lacks `": "` is refused.
pub proof fn lemma_line_without_separator_fails(block: Seq<char>, i: int)
    requires
        0 <= i < lines(block).len(),
        lines(block)[i].len() > 0,
        find(lines(block)[i], header_sep()) is None,
    ensures
        header_map(block) is None,
{
    let ls = lines(block);
    let pre = ls.take(i + 1);
    assert(pre.drop_last() =~= ls.take(i));
    if fold_headers(pre.drop_last()) is Some {
        assert(pre.last() == ls[i]);
    }
    lemma_fold_none_stays(pre, ls.skip(i + 1));
    assert(pre + ls.skip(i + 1) =~= ls);
}

/// Parses the header lines in `s[start..end]`.
fn headers_in(s: &Vec<char>, start: usize, end: usize) -> (r: Result<Headers, RequestError>)
    requires
        start <= end <= s.len(),
    ensures
        match header_map(s@.subrange(start as int, end as int)) {
            Some(m) => r is Ok && r->Ok_0@ == m,
            None => r == Err::<Headers, RequestError>(RequestError::MalformedHeader),
        },
{
    let ghost block = s@.subrange(start as int, end as int);
    let nl = vec!['\r', '\n'];
    let sep = vec![':', ' '];
    assert(nl@ =~= crlf());
    assert(sep@ =~= header_sep());
    let mut h = Headers::new();
    let ghost mut done: Seq<Seq<char>> = Seq::empty();
    let mut pos: usize = start;
    loop
        invariant
            start <= pos <= end <= s.len(),
            block == s@.subrange(start as int, end as int),
            nl@ == crlf(),
            sep@ == header_sep(),
            lines(block) == done + lines(s@.subrange(pos as int, end as int)),
            fold_headers(done) == Some(h@),
        decreases end - pos,
    {
        let ghost rest = s@.subrange(pos as int, end as int);
        let found = find_in(s, pos, end, &nl);
        let line_end: usize = match found {
            Some(k) => pos + k,
            None => end,
        };
        proof {
            lemma_find_from(rest, crlf(), 0);
        }
        let ghost line = s@.subrange(pos as int, line_end as int);
        let ghost done2 = done.push(line);
        proof {
            match found {
                Some(k) => {
                    assert(line =~= rest.take(k as int));
                    assert(lines(rest) == seq![line] + lines(rest.skip(k + 2)));
                    if line_end + 2 <= end {
                        assert(rest.skip(k + 2) =~= s@.subrange(line_end + 2, end as int));
                    }
                    assert(done + lines(rest) =~= done2 + lines(rest.skip(k + 2)));
                },
                None => {
                    assert(line =~= rest);
                    assert(done + lines(rest) =~= done2);
                },
            }
            assert(done2.drop_last() =~= done);
            assert(done2.last() == line);
        }
        if line_end > pos {
            let key_end = find_in(s, pos, line_end, &sep);
            match key_end {
                None => {
                    proof {
                        lemma_fold_none_stays(done2, lines(block).skip(done2.len() as int));
                        assert(done2 + lines(block).skip(done2.len() as int) =~= lines(block));
                    }
                    return Err(RequestError::MalformedHeader);
                },
                Some(k) => {
                    proof {
                        lemma_find_from(line, header_sep(), 0);
                        assert(line.take(k as int) =~= s@.subrange(pos as int, pos + k));
                        assert(line.skip(k + 2) =~= s@.subrange(pos + k + 2, line_end as int));
                    }
                    let key = text_of(s, pos, pos + k);
                    let value = text_of(s, pos + k + 2, line_end);
                    h.insert(key, value);
                },
            }
        }
        proof {
            done = done2;
        }
        match found {
            Some(_) => {
                pos = line_end + 2;
            },
            None => {
                assert(done =~= lines(block));
                return Ok(h);
            },
        }
    }
}

/// Parses a header block: one `key: value` pair per non-empty line.
pub fn parse_headers(hs: &str) -> (r: Result<Headers, RequestError>)
    ensures
        match header_map(hs@) {
            Some(m) => r is Ok && r->Ok_0@ == m,
            None => r == Err::<Headers, RequestError>(RequestError::MalformedHeader),
        },
{
    let s = chars_of(hs);
    assert(s@.subrange(0, s@.len() as int) =~= hs@);
    headers_in(&s, 0, s.len())
}


/// `s` without the NUL characters at its right end.
pub open spec fn trim_nul(s: Seq<char>) -> Seq<char>
    decreases s.len(),
{
    if s.len() > 0 && s.last() == '\0' {
        trim_nul(s.drop_last())
    } else {
        s
    }
}

/// Trimming keeps a prefix of the text, removes only NULs, and leaves no
/// NUL at the right end; NULs before the last other character stay.
pub proof fn lemma_trim_nul(s: Seq<char>)
    ensures
        trim_nul(s).len() <= s.len(),
        trim_nul(s) == s.take(trim_nul(s).len() as int),
        forall|i: int| trim_nul(s).len() <= i < s.len() ==> s[i] == '\0',
        trim_nul(s).len() == 0 || trim_nul(s).last() != '\0',
    decreases s.len(),
{
    if s.len() > 0 && s.last() == '\0' {
        lemma_trim_nul(s.drop_last());
        let t = trim_nul(s.drop_last());
        assert(t == s.take(t.len() as int)) by {
            assert(s.drop_last().take(t.len() as int) =~= s.take(t.len() as int));
        }
        assert forall|i: int| t.len() <= i < s.len() implies s[i] == '\0' by {
            if i < s.len() - 1 {
                assert(s.drop_last()[i] == s[i]);
            }
        }
    } else {
        assert(s.take(s.len() as int) =~= s);
    }
}

/// The end of `s[start..end]` once the NULs at its right end are dropped.
fn trimmed_end(s: &Vec<char>, start: usize, end: usize) -> (e: usize)
    requires
        start <= end <= s.len(),
    ensures
        start <= e <= end,
        s@.subrange(start as int, e as int) == trim_nul(s@.subrange(start as int, end as int)),
{
    let mut e: usize = end;
    while e > start && s[e - 1] == '\0'
        invariant
            start <= e <= end <= s.len(),
            trim_nul(s@.subrange(start as int, e as int)) == trim_nul(
                s@.subrange(start as int, end as int),
            ),
        decreases e,
    {
        assert(s@.subrange(start as int, e as int).drop_last() =~= s@.subrange(
            start as int,
            e - 1,
        ));
        e = e - 1;
    }
    e
}

/// Drops the NUL characters at the right end of a body; NULs elsewhere stay.
pub fn parse_body(body: &str) -> (r: &str)
    ensures
        r@ == trim_nul(body@),
{
    let s = chars_of(body);
    let e = trimmed_end(&s, 0, s.len());
    assert(s@.subrange(0, s.len() as int) =~= body@);
    body.substring_char(0, e)
}


/// The blank line that ends a request's head.
pub open spec fn blank_line() -> Seq<char> {
    seq!['\r', '\n', '\r', '\n']
}

/// The separator of the request line's tokens.
pub open spec fn space() -> Seq<char> {
    seq![' ']
}

/// The text before the first space of `s`, or all of `s`.
pub open spec fn first_token(s: Seq<char>) -> Seq<char> {
    match find(s, space()) {
        Some(k) => s.take(k),
        None => s,
    }
}

/// Method, URI and version: the first three space-separated tokens of a
/// request line, or `None` where it has fewer or one of them is empty.
pub open spec fn request_line(l: Seq<char>) -> Option<(Seq<char>, Seq<char>, Seq<char>)> {
    match find(l, space()) {
        None => None,
        Some(i) => {
            let r = l.skip(i + 1);
            match find(r, space()) {
                None => None,
                Some(j) => {
                    let (method, uri, version) = (l.take(i), r.take(j), first_token(r.skip(j + 1)));
                    if method.len() > 0 && uri.len() > 0 && version.len() > 0 {
                        Some((method, uri, version))
                    } else {
                        None
                    }
                },
            }
        },
    }
}

/// What a parsed request holds.
pub struct RequestModel {
    pub method: Seq<char>,
    pub uri: Seq<char>,
    pub version: Seq<char>,
    pub headers: Map<Seq<char>, Seq<char>>,
    pub body: Seq<char>,
}

/// The request that the text `s` describes, or why it describes none.
pub open spec fn request_of(s: Seq<char>) -> Result<RequestModel, RequestError> {
    match find(s, blank_line()) {
        None => Err(RequestError::MissingBlankLine),
        Some(h) => {
            let head = s.take(h);
            let (line, block) = match find(head, crlf()) {
                Some(i) => (head.take(i), head.skip(i + 2)),
                None => (head, Seq::empty()),
            };
            match request_line(line) {
                None => Err(RequestError::MissingRequestToken),
                Some((method, uri, version)) => match header_map(block) {
                    None => Err(RequestError::MalformedHeader),
                    Some(headers) => Ok(
                        RequestModel {
                            method,
                            uri,
                            version,
                            headers,
                            body: trim_nul(s.skip(h + 4)),
                        },
                    ),
                },
            }
        },
    }
}

/// A request that parses has a non-empty method, URI and version; only its
/// body may be empty.
pub proof fn lemma_parsed_tokens_nonempty(s: Seq<char>)
    ensures
        request_of(s) is Ok ==> request_of(s)->Ok_0.method.len() > 0
            && request_of(s)->Ok_0.uri.len() > 0 && request_of(s)->Ok_0.version.len() > 0,
{
}

/// A parsed request; the body is an owned copy with its trailing NULs
/// dropped.
pub struct Request {
    pub method: String,
    pub uri: String,
    pub version: String,
    pub headers: Headers,
    pub body: String,
}

impl View for Request {
    type V = RequestModel;

    open spec fn view(&self) -> RequestModel {
        RequestModel {
            method: self.method@,
            uri: self.uri@,
            version: self.version@,
            headers: self.headers@,
            body: self.body@,
        }
    }
}

/// The end of the first space-separated token of `s[start..end]`.
fn token_end(s: &Vec<char>, start: usize, end: usize, sp: &Vec<char>) -> (e: usize)
    requires
        start <= end <= s.len(),
        sp@ == space(),
    ensures
        start <= e <= end,
        s@.subrange(start as int, e as int) == first_token(s@.subrange(start as int, end as int)),
{
    let ghost t = s@.subrange(start as int, end as int);
    match find_in(s, start, end, sp) {
        Some(k) => {
            assert(t.take(k as int) =~= s@.subrange(start as int, start + k));
            start + k
        },
        None => {
            start + (end - start)
        },
    }
}

/// Finds the method, URI and version in the request line `s[..end]`: the
/// ends of the first two tokens and the end of the third.
fn request_line_in(s: &Vec<char>, end: usize, sp: &Vec<char>) -> (r: Option<(usize, usize, usize)>)
    requires
        end <= s.len(),
        sp@ == space(),
    ensures
        match request_line(s@.subrange(0, end as int)) {
            Some((m, u, v)) => r matches Some((i, j, e)) && i + j + 2 <= e <= end && m
                == s@.subrange(0, i as int) && u == s@.subrange(i + 1, i + 1 + j) && v
                == s@.subrange(i + j + 2, e as int),
            None => r is None,
        },
{
    let ghost line = s@.subrange(0, end as int);
    let i = match find_in(s, 0, end, sp) {
        None => {
            return None;
        },
        Some(i) => i,
    };
    let ghost rest = line.skip(i + 1);
    assert(rest =~= s@.subrange(i + 1, end as int));
    let j = match find_in(s, i + 1, end, sp) {
        None => {
            return None;
        },
        Some(j) => j,
    };
    assert(line.take(i as int) =~= s@.subrange(0, i as int));
    assert(rest.take(j as int) =~= s@.subrange(i + 1, i + 1 + j));
    assert(rest.skip(j + 1) =~= s@.subrange(i + j + 2, end as int));
    let e = token_end(s, i + j + 2, end, sp);
    if i == 0 || j == 0 || e == i + j + 2 {
        return None;
    }
    Some((i, j, e))
}

/// Parses a request: request line, header lines, blank line, body.
pub fn parse_request(request: &str) -> (r: Result<Request, RequestError>)
    ensures
        match request_of(request@) {
            Ok(m) => r is Ok && r->Ok_0@ == m,
            Err(e) => r is Err && r->Err_0 == e,
        },
        r is Ok ==> r->Ok_0.method@.len() > 0 && r->Ok_0.uri@.len() > 0
            && r->Ok_0.version@.len() > 0,
{
    proof {
        lemma_parsed_tokens_nonempty(request@);
    }
    let s = chars_of(request);
    let n = s.len();
    let ghost t = request@;
    assert(s@.subrange(0, n as int) =~= t);
    let blank = vec!['\r', '\n', '\r', '\n'];
    let nl = vec!['\r', '\n'];
    let sp = vec![' '];
    assert(blank@ =~= blank_line());
    assert(nl@ =~= crlf());
    assert(sp@ =~= space());
    let h = match find_in(&s, 0, n, &blank) {
        None => {
            return Err(RequestError::MissingBlankLine);
        },
        Some(h) => h,
    };
    let ghost head = t.take(h as int);
    assert(head =~= s@.subrange(0, h as int));
    let (line_end, block_start) = match find_in(&s, 0, h, &nl) {
        Some(i) => {
            assert(head.take(i as int) =~= s@.subrange(0, i as int));
            assert(head.skip(i + 2) =~= s@.subrange(i + 2, h as int));
            (i, i + 2)
        },
        None => {
            assert(Seq::<char>::empty() =~= s@.subrange(h as int, h as int));
            (h, h)
        },
    };
    let (i, j, v_end) = match request_line_in(&s, line_end, &sp) {
        None => {
            return Err(RequestError::MissingRequestToken);
        },
        Some(t) => t,
    };
    let headers = match headers_in(&s, block_start, h) {
        Err(e) => {
            return Err(e);
        },
        Ok(hs) => hs,
    };
    let body_end = trimmed_end(&s, h + 4, n);
    assert(t.skip(h + 4) =~= s@.subrange(h + 4, n as int));
    Ok(
        Request {
            method: text_of(&s, 0, i),
            uri: text_of(&s, i + 1, i + 1 + j),
            version: text_of(&s, i + j + 2, v_end),
            headers,
            body: text_of(&s, h + 4, body_end),
        },
    )
}

} // verus!
