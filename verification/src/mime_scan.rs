//! The scanners that cut a multipart body into its parts (RFC 2046): the
//! preamble, the delimiter lines, the transport padding and the close
//! delimiter.

use vstd::prelude::*;
use crate::MailError;
use crate::pos_view;
use crate::chars::spec_is_wsp;
use crate::lex::{spec_wsp_end, lemma_wsp_end, spec_crlf, mailimf_crlf_parse};

verus! {

/// LWSP: a non-empty run of spaces and tabs.
pub open spec fn spec_lwsp(s: Seq<u8>, i: int) -> Result<int, MailError> {
    if i < 0 || i >= s.len() {
        Err(MailError::Parse)
    } else {
        let j = spec_wsp_end(s, i);
        if j == i { Err(MailError::Parse) } else { Ok(j) }
    }
}

pub fn mailmime_lwsp_parse(message: &[u8], indx: usize) -> (r: Result<usize, MailError>)
    requires
        indx <= message@.len(),
    ensures
        pos_view(r) == spec_lwsp(message@, indx as int),
        r matches Ok(j) ==> indx < j <= message@.len(),
{
    if indx >= message.len() {
        return Err(MailError::Parse);
    }
    proof {
        lemma_wsp_end(message@, indx as int);
    }
    let mut cur: usize = indx;
    while cur < message.len() && (message[cur] == 32 || message[cur] == 9)
        invariant
            indx <= cur <= message@.len(),
            spec_wsp_end(message@, indx as int) == spec_wsp_end(message@, cur as int),
        decreases message@.len() - cur,
    {
        cur = cur + 1;
    }
    if cur == indx {
        return Err(MailError::Parse);
    }
    Ok(cur)
}

/// Where the cursor stands after runs of LWSP.
pub open spec fn spec_skip_lwsp(s: Seq<u8>, i: int) -> int
    decreases s.len() - i,
{
    match spec_lwsp(s, i) {
        Ok(j) => if i < j <= s.len() { spec_skip_lwsp(s, j) } else { i },
        Err(_) => i,
    }
}

pub fn skip_lwsp(message: &[u8], indx: usize) -> (j: usize)
    requires
        indx <= message@.len(),
    ensures
        j == spec_skip_lwsp(message@, indx as int),
        indx <= j <= message@.len(),
{
    let mut cur: usize = indx;
    loop
        invariant
            indx <= cur <= message@.len(),
            spec_skip_lwsp(message@, indx as int) == spec_skip_lwsp(message@, cur as int),
        decreases message@.len() - cur,
    {
        match mailmime_lwsp_parse(message, cur) {
            Ok(j) => {
                cur = j;
            },
            Err(_) => {
                return cur;
            },
        }
    }
}

/// After a part: spaces and tabs, then LF or CRLF (state 0), or LF after a
/// CR (state 1).
pub open spec fn spec_next_scan(s: Seq<u8>, p: int, st: u8) -> Result<int, MailError>
    decreases s.len() - p,
{
    if p < 0 || p >= s.len() {
        Err(MailError::Parse)
    } else {
        let c = s[p];
        if st == 0 {
            if c == 32 || c == 9 {
                spec_next_scan(s, p + 1, 0)
            } else if c == 13 {
                spec_next_scan(s, p + 1, 1)
            } else if c == 10 {
                Ok(p + 1)
            } else {
                Err(MailError::Parse)
            }
        } else if c == 10 {
            Ok(p + 1)
        } else {
            Err(MailError::Parse)
        }
    }
}

pub fn mailmime_multipart_next_parse(message: &[u8], indx: usize) -> (r: Result<usize, MailError>)
    requires
        indx <= message@.len(),
    ensures
        pos_view(r) == spec_next_scan(message@, indx as int, 0),
        r matches Ok(j) ==> indx < j <= message@.len(),
{
    let ghost whole = spec_next_scan(message@, indx as int, 0);
    let mut cur: usize = indx;
    let mut st: u8 = 0;
    while cur < message.len()
        invariant
            indx <= cur <= message@.len(),
            st == 0 || st == 1,
            st == 1 ==> indx < cur,
            whole == spec_next_scan(message@, indx as int, 0),
            whole == spec_next_scan(message@, cur as int, st),
        decreases message@.len() - cur,
    {
        let c = message[cur];
        if st == 0 {
            if c == 32 || c == 9 {
                st = 0;
            } else if c == 13 {
                st = 1;
            } else if c == 10 {
                return Ok(cur + 1);
            } else {
                return Err(MailError::Parse);
            }
        } else if c == 10 {
            return Ok(cur + 1);
        } else {
            return Err(MailError::Parse);
        }
        cur = cur + 1;
    }
    Err(MailError::Parse)
}

/// What follows the `--` of a close delimiter: spaces and tabs, then one more
/// byte (two after a CR). Where the bytes end first, the cursor stands at
/// the end.
pub open spec fn spec_close_tail(s: Seq<u8>, p: int) -> int
    decreases s.len() - p,
{
    if p < 0 || p >= s.len() {
        s.len() as int
    } else {
        let c = s[p];
        if c == 32 || c == 9 {
            spec_close_tail(s, p + 1)
        } else if c == 13 {
            if p + 1 >= s.len() { s.len() as int } else { p + 2 }
        } else {
            p + 1
        }
    }
}

/// The end of a close delimiter: `--` and its tail.
pub open spec fn spec_multipart_close(s: Seq<u8>, i: int) -> Result<int, MailError> {
    if 0 <= i && i + 1 < s.len() && s[i] == 45 && s[i + 1] == 45 {
        Ok(spec_close_tail(s, i + 2))
    } else {
        Err(MailError::Parse)
    }
}

pub fn mailmime_multipart_close_parse(message: &[u8], indx: usize) -> (r: Result<usize, MailError>)
    requires
        indx <= message@.len(),
    ensures
        pos_view(r) == spec_multipart_close(message@, indx as int),
        r matches Ok(j) ==> indx < j <= message@.len(),
{
    if indx >= message.len() || message.len() - indx < 2 || message[indx] != 45 || message[indx + 1] != 45 {
        return Err(MailError::Parse);
    }
    let mut cur: usize = indx + 2;
    loop
        invariant
            indx + 2 <= cur <= message@.len(),
            spec_multipart_close(message@, indx as int) == Ok::<int, MailError>(spec_close_tail(message@, cur as int)),
        decreases message@.len() - cur,
    {
        if cur >= message.len() {
            return Ok(message.len());
        }
        let c = message[cur];
        if c == 32 || c == 9 {
            cur = cur + 1;
        } else if c == 13 {
            if message.len() - cur < 2 {
                return Ok(message.len());
            }
            return Ok(cur + 2);
        } else {
            return Ok(cur + 1);
        }
    }
}

/// The boundary `b` at `i`, with at least one byte after it.
pub open spec fn spec_boundary_at(s: Seq<u8>, i: int, b: Seq<u8>) -> Result<int, MailError> {
    if 0 <= i && i + b.len() < s.len() && s.subrange(i, i + b.len()) == b {
        Ok(i + b.len())
    } else {
        Err(MailError::Parse)
    }
}

pub fn mailmime_boundary_parse(message: &[u8], indx: usize, boundary: &[u8]) -> (r: Result<usize, MailError>)
    requires
        indx <= message@.len(),
    ensures
        pos_view(r) == spec_boundary_at(message@, indx as int, boundary@),
        r matches Ok(j) ==> indx <= j <= message@.len(),
{
    let n = boundary.len();
    let mlen = message.len();
    if n >= mlen - indx {
        return Err(MailError::Parse);
    }
    let mut k: usize = 0;
    while k < n
        invariant
            n == boundary@.len(),
            mlen == message@.len(),
            indx + n < message@.len(),
            0 <= k <= n,
            forall|m: int| 0 <= m < k ==> message@[indx + m] == boundary@[m],
        decreases n - k,
    {
        if message[indx + k] != boundary[k] {
            assert(message@.subrange(indx as int, indx + n)[k as int] != boundary@[k as int]);
            return Err(MailError::Parse);
        }
        k = k + 1;
    }
    assert(message@.subrange(indx as int, indx + n) =~= boundary@);
    Ok(indx + n)
}

/// The scan for a delimiter line `\n--boundary`: states 0 (in a line), 1
/// (after CR), 2 (after LF), 3 (after `\n-`), 4 (after `\n--`). `end` is
/// where the last `\n-` started; the scan gives that and where it stopped.
pub open spec fn spec_dash2_scan(s: Seq<u8>, b: Seq<u8>, p: int, st: u8, end: int) -> (int, int)
    decreases s.len() - p, if st >= 4 { 1int } else { 0int },
{
    if p < 0 || p >= s.len() {
        (end, p)
    } else {
        let c = s[p];
        if st == 0 {
            if c == 13 { spec_dash2_scan(s, b, p + 1, 1, end) }
            else if c == 10 { spec_dash2_scan(s, b, p + 1, 2, end) }
            else { spec_dash2_scan(s, b, p + 1, 0, end) }
        } else if st == 1 {
            if c == 10 { spec_dash2_scan(s, b, p + 1, 2, end) }
            else { spec_dash2_scan(s, b, p + 1, 0, end) }
        } else if st == 2 {
            if c == 45 { spec_dash2_scan(s, b, p + 1, 3, p) }
            else if c == 13 { spec_dash2_scan(s, b, p + 1, 1, end) }
            else if c == 10 { spec_dash2_scan(s, b, p + 1, 2, end) }
            else { spec_dash2_scan(s, b, p + 1, 0, end) }
        } else if st == 3 {
            if c == 13 { spec_dash2_scan(s, b, p + 1, 1, end) }
            else if c == 10 { spec_dash2_scan(s, b, p + 1, 2, end) }
            else if c == 45 { spec_dash2_scan(s, b, p + 1, 4, end) }
            else { spec_dash2_scan(s, b, p + 1, 0, end) }
        } else {
            match spec_boundary_at(s, p, b) {
                Ok(q) => (end, q),
                Err(_) => spec_dash2_scan(s, b, p, 0, end),
            }
        }
    }
}

proof fn lemma_dash2_scan(s: Seq<u8>, b: Seq<u8>, p: int, st: u8, end: int)
    requires
        0 <= p <= s.len(),
        end <= s.len(),
        st <= 4,
        (st == 3 || st == 4) ==> end < p,
    ensures
        p <= spec_dash2_scan(s, b, p, st, end).1 <= s.len(),
        spec_dash2_scan(s, b, p, st, end).0 <= spec_dash2_scan(s, b, p, st, end).1,
        spec_dash2_scan(s, b, p, st, end).0 == end || p <= spec_dash2_scan(s, b, p, st, end).0,
    decreases s.len() - p, if st >= 4 { 1int } else { 0int },
{
    if p < s.len() {
        let c = s[p];
        if st == 0 {
            if c == 13 { lemma_dash2_scan(s, b, p + 1, 1, end); }
            else if c == 10 { lemma_dash2_scan(s, b, p + 1, 2, end); }
            else { lemma_dash2_scan(s, b, p + 1, 0, end); }
        } else if st == 1 {
            if c == 10 { lemma_dash2_scan(s, b, p + 1, 2, end); }
            else { lemma_dash2_scan(s, b, p + 1, 0, end); }
        } else if st == 2 {
            if c == 45 { lemma_dash2_scan(s, b, p + 1, 3, p); }
            else if c == 13 { lemma_dash2_scan(s, b, p + 1, 1, end); }
            else if c == 10 { lemma_dash2_scan(s, b, p + 1, 2, end); }
            else { lemma_dash2_scan(s, b, p + 1, 0, end); }
        } else if st == 3 {
            if c == 13 { lemma_dash2_scan(s, b, p + 1, 1, end); }
            else if c == 10 { lemma_dash2_scan(s, b, p + 1, 2, end); }
            else if c == 45 { lemma_dash2_scan(s, b, p + 1, 4, end); }
            else { lemma_dash2_scan(s, b, p + 1, 0, end); }
        } else {
            match spec_boundary_at(s, p, b) {
                Ok(q) => {},
                Err(_) => { lemma_dash2_scan(s, b, p, 0, end); },
            }
        }
    }
}

/// The end of a part's text once the line break before the delimiter is
/// taken off: a CR, or an LF with the CR before it.
pub open spec fn spec_trim_eol(s: Seq<u8>, begin: int, end: int) -> int {
    if end - begin >= 1 {
        if s[end - 1] == 13 {
            end - 1
        } else if s[end - 1] == 10 {
            if end - 1 - begin >= 1 && s[end - 2] == 13 { end - 2 } else { end - 1 }
        } else {
            end
        }
    } else {
        end
    }
}

/// A part's text up to a delimiter line (or to the end of the bytes): where
/// the text starts, its length, and where the cursor stands after the
/// delimiter. An empty text is a parse error.
pub open spec fn spec_dash2(s: Seq<u8>, i: int, b: Seq<u8>) -> Result<((int, int), int), MailError> {
    let (e0, c) = spec_dash2_scan(s, b, i, 0, s.len() as int);
    let e = spec_trim_eol(s, i, e0);
    if e - i == 0 {
        Err(MailError::Parse)
    } else {
        Ok(((i, e - i), c))
    }
}

pub fn mailmime_body_part_dash2_parse(message: &[u8], indx: usize, boundary: &[u8]) -> (r: Result<((usize, usize), usize), MailError>)
    requires
        indx <= message@.len(),
    ensures
        match (r, spec_dash2(message@, indx as int, boundary@)) {
            (Ok(((b, n), j)), Ok(((b2, n2), j2))) => b == b2 && n == n2 && j == j2,
            (Err(x), Err(y)) => x == y,
            _ => false,
        },
        r matches Ok(((b, n), j)) ==> b == indx && 0 < n && indx + n <= j && indx < j <= message@.len(),
{
    let ghost s = message@;
    let ghost bd = boundary@;
    proof {
        lemma_dash2_scan(s, bd, indx as int, 0, s.len() as int);
    }
    let len = message.len();
    let mut cur: usize = indx;
    let mut st: u8 = 0;
    let mut end: usize = len;
    loop
        invariant_except_break
            st <= 4,
            (st == 3 || st == 4) ==> end < cur,
            spec_dash2_scan(s, bd, indx as int, 0, len as int) == spec_dash2_scan(s, bd, cur as int, st, end as int),
        invariant
            s == message@,
            bd == boundary@,
            len == s.len(),
            indx <= cur <= len,
            end <= len,
            end == len || indx <= end,
        ensures
            spec_dash2_scan(s, bd, indx as int, 0, len as int) == (end as int, cur as int),
            indx <= cur <= len,
            end <= cur,
            end == len || indx <= end,
        decreases len - cur, if st >= 4 { 1int } else { 0int },
    {
        if cur >= len {
            break;
        }
        proof {
            lemma_dash2_scan(s, bd, cur as int, st, end as int);
        }
        let c = message[cur];
        if st == 0 {
            if c == 13 { st = 1; } else if c == 10 { st = 2; } else { st = 0; }
            cur = cur + 1;
        } else if st == 1 {
            if c == 10 { st = 2; } else { st = 0; }
            cur = cur + 1;
        } else if st == 2 {
            if c == 45 { end = cur; st = 3; } else if c == 13 { st = 1; } else if c == 10 { st = 2; } else { st = 0; }
            cur = cur + 1;
        } else if st == 3 {
            if c == 13 { st = 1; } else if c == 10 { st = 2; } else if c == 45 { st = 4; } else { st = 0; }
            cur = cur + 1;
        } else {
            match mailmime_boundary_parse(message, cur, boundary) {
                Ok(q) => {
                    cur = q;
                    break;
                },
                Err(_) => {
                    st = 0;
                },
            }
        }
    }
    let mut e = end;
    if e - indx >= 1 {
        if message[e - 1] == 13 {
            e = e - 1;
        } else if message[e - 1] == 10 {
            e = e - 1;
            if e - indx >= 1 && message[e - 1] == 13 {
                e = e - 1;
            }
        }
    }
    if e - indx == 0 {
        return Err(MailError::Parse);
    }
    Ok(((indx, e - indx), cur))
}

/// A part followed by a delimiter line with only LWSP and a line break after
/// it; delimiters followed by anything else belong to the part's text. Gives
/// where the text ends and where the cursor stands.
pub open spec fn spec_transport_rest(s: Seq<u8>, b: Seq<u8>, p: int) -> Result<(int, int), MailError>
    decreases s.len() - p,
{
    match spec_dash2(s, p, b) {
        Err(x) => Err(x),
        Ok(((beg, n), c)) => {
            let c2 = spec_skip_lwsp(s, c);
            match spec_crlf(s, c2) {
                Ok(c3) => Ok((beg + n, c3)),
                Err(MailError::Parse) => if p < c2 <= s.len() {
                    spec_transport_rest(s, b, c2)
                } else {
                    Err(MailError::Parse)
                },
                Err(x) => Err(x),
            }
        },
    }
}

/// A part that a delimiter line ends: its text from `i` and the cursor after.
pub open spec fn spec_transport(s: Seq<u8>, i: int, b: Seq<u8>) -> Result<((int, int), int), MailError> {
    match spec_transport_rest(s, b, i) {
        Ok((end, c)) => Ok(((i, end - i), c)),
        Err(x) => Err(x),
    }
}

pub fn mailmime_body_part_dash2_transport_crlf_parse(message: &[u8], indx: usize, boundary: &[u8]) -> (r: Result<((usize, usize), usize), MailError>)
    requires
        indx <= message@.len(),
    ensures
        match (r, spec_transport(message@, indx as int, boundary@)) {
            (Ok(((b, n), j)), Ok(((b2, n2), j2))) => b == b2 && n == n2 && j == j2,
            (Err(x), Err(y)) => x == y,
            _ => false,
        },
        r matches Ok(((b, n), j)) ==> b == indx && 0 < n && indx + n <= j && indx < j <= message@.len(),
{
    let ghost whole = spec_transport_rest(message@, boundary@, indx as int);
    let mut cur: usize = indx;
    loop
        invariant
            indx <= cur <= message@.len(),
            whole == spec_transport_rest(message@, boundary@, indx as int),
            whole == spec_transport_rest(message@, boundary@, cur as int),
        decreases message@.len() - cur,
    {
        let ((beg, n), c) = mailmime_body_part_dash2_parse(message, cur, boundary)?;
        let c2 = skip_lwsp(message, c);
        match mailimf_crlf_parse(message, c2) {
            Ok(c3) => {
                return Ok(((indx, beg + n - indx), c3));
            },
            Err(MailError::Parse) => {
                cur = c2;
            },
            Err(x) => return Err(x),
        }
    }
}

/// The last part: its text, up to a close delimiter or to the end of the
/// bytes; text after delimiters that are not close delimiters belongs to it.
pub open spec fn spec_close_rest(s: Seq<u8>, b: Seq<u8>, p: int) -> Result<(int, int), MailError>
    decreases s.len() - p,
{
    match spec_dash2(s, p, b) {
        Err(x) => Err(x),
        Ok(((beg, n), c)) => if c >= s.len() {
            Ok((beg + n, c))
        } else {
            match spec_multipart_close(s, c) {
                Ok(c2) => Ok((beg + n, c2)),
                Err(MailError::Parse) => if p < c <= s.len() {
                    spec_close_rest(s, b, c)
                } else {
                    Err(MailError::Parse)
                },
                Err(x) => Err(x),
            }
        },
    }
}

pub open spec fn spec_dash2_close(s: Seq<u8>, i: int, b: Seq<u8>) -> Result<((int, int), int), MailError> {
    match spec_close_rest(s, b, i) {
        Ok((end, c)) => Ok(((i, end - i), c)),
        Err(x) => Err(x),
    }
}

pub fn mailmime_body_part_dash2_close_parse(message: &[u8], indx: usize, boundary: &[u8]) -> (r: Result<((usize, usize), usize), MailError>)
    requires
        indx <= message@.len(),
    ensures
        match (r, spec_dash2_close(message@, indx as int, boundary@)) {
            (Ok(((b, n), j)), Ok(((b2, n2), j2))) => b == b2 && n == n2 && j == j2,
            (Err(x), Err(y)) => x == y,
            _ => false,
        },
        r matches Ok(((b, n), j)) ==> b == indx && 0 < n && indx + n <= j && indx < j <= message@.len(),
{
    let ghost whole = spec_close_rest(message@, boundary@, indx as int);
    let mut cur: usize = indx;
    loop
        invariant
            indx <= cur <= message@.len(),
            whole == spec_close_rest(message@, boundary@, indx as int),
            whole == spec_close_rest(message@, boundary@, cur as int),
        decreases message@.len() - cur,
    {
        let ((beg, n), c) = mailmime_body_part_dash2_parse(message, cur, boundary)?;
        if c >= message.len() {
            return Ok(((indx, beg + n - indx), c));
        }
        match mailmime_multipart_close_parse(message, c) {
            Ok(c2) => {
                return Ok(((indx, beg + n - indx), c2));
            },
            Err(MailError::Parse) => {
                cur = c;
            },
            Err(x) => return Err(x),
        }
    }
}

/// The scan for the first `--` at the start of a line: states 0 (at the
/// start of a line), 1 (in a line), 2 (after a `-` that starts a line),
/// 3 (after CR), 4 (after LF), 5 (after `-` after a line break). Gives the
/// position after the `--`.
pub open spec fn spec_preamble_scan(s: Seq<u8>, p: int, st: u8) -> Result<int, MailError>
    decreases s.len() - p,
{
    if p < 0 || p >= s.len() {
        Err(MailError::Parse)
    } else {
        let c = s[p];
        let next: u8 = if st == 0 {
            if c == 45 { 2 } else if c == 13 { 3 } else if c == 10 { 4 } else { 1 }
        } else if st == 1 {
            if c == 13 { 3 } else if c == 10 { 4 } else { 1 }
        } else if st == 2 {
            if c == 45 { 6 } else if c == 13 { 3 } else if c == 10 { 4 } else { 1 }
        } else if st == 3 {
            if c == 13 { 3 } else if c == 10 { 4 } else if c == 45 { 5 } else { 0 }
        } else if st == 4 {
            if c == 45 { 5 } else if c == 13 { 3 } else if c == 10 { 4 } else { 0 }
        } else {
            if c == 45 { 6 } else { 1 }
        };
        if next == 6 {
            Ok(p + 1)
        } else {
            spec_preamble_scan(s, p + 1, next)
        }
    }
}

/// Skips text up to a `--` at the start of a line; `beol` tells whether the
/// cursor stands at the start of a line.
pub fn mailmime_preamble_parse(message: &[u8], indx: usize, beol: bool) -> (r: Result<usize, MailError>)
    requires
        indx <= message@.len(),
    ensures
        pos_view(r) == spec_preamble_scan(message@, indx as int, if beol { 0u8 } else { 1u8 }),
        r matches Ok(j) ==> indx < j <= message@.len(),
{
    let ghost whole = spec_preamble_scan(message@, indx as int, if beol { 0u8 } else { 1u8 });
    let mut st: u8 = if beol { 0 } else { 1 };
    let mut cur: usize = indx;
    while cur < message.len()
        invariant
            indx <= cur <= message@.len(),
            st <= 5,
            whole == spec_preamble_scan(message@, indx as int, if beol { 0u8 } else { 1u8 }),
            whole == spec_preamble_scan(message@, cur as int, st),
        decreases message@.len() - cur,
    {
        let c = message[cur];
        let next: u8 = if st == 0 {
            if c == 45 { 2 } else if c == 13 { 3 } else if c == 10 { 4 } else { 1 }
        } else if st == 1 {
            if c == 13 { 3 } else if c == 10 { 4 } else { 1 }
        } else if st == 2 {
            if c == 45 { 6 } else if c == 13 { 3 } else if c == 10 { 4 } else { 1 }
        } else if st == 3 {
            if c == 13 { 3 } else if c == 10 { 4 } else if c == 45 { 5 } else { 0 }
        } else if st == 4 {
            if c == 45 { 5 } else if c == 13 { 3 } else if c == 10 { 4 } else { 0 }
        } else {
            if c == 45 { 6 } else { 1 }
        };
        if next == 6 {
            return Ok(cur + 1);
        }
        st = next;
        cur = cur + 1;
    }
    Err(MailError::Parse)
}

} // verus!
