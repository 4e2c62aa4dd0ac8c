//! Decoding of MIME bodies: base64, quoted-printable and binary.

use vstd::prelude::*;
use crate::MailError;

verus! {

/// The value of a base64 digit, or `None` for any other byte (padding included).
pub open spec fn spec_base64_value(c: u8) -> Option<u8> {
    if 65 <= c <= 90 {
        Some((c - 65) as u8)
    } else if 97 <= c <= 122 {
        Some((c - 97 + 26) as u8)
    } else if 48 <= c <= 57 {
        Some((c - 48 + 52) as u8)
    } else if c == 43 {
        Some(62u8)
    } else if c == 47 {
        Some(63u8)
    } else {
        None
    }
}

pub fn get_base64_value(c: u8) -> (r: Option<u8>)
    ensures
        r == spec_base64_value(c),
        r matches Some(v) ==> v < 64,
{
    if 65 <= c && c <= 90 {
        return Some(c - 65);
    }
    if 97 <= c && c <= 122 {
        return Some(c - 97 + 26);
    }
    if 48 <= c && c <= 57 {
        return Some(c - 48 + 52);
    }
    if c == 43 {
        Some(62)
    } else if c == 47 {
        Some(63)
    } else {
        None
    }
}

/// The bytes that a group of base64 values stands for, truncated to 8 bits.
pub open spec fn b64_byte0(a: u8, b: u8) -> u8 {
    (((a as int) * 4 + (b as int) / 16) % 256) as u8
}

pub open spec fn b64_byte1(b: u8, c: u8) -> u8 {
    ((((b as int) * 16) + (c as int) / 4) % 256) as u8
}

pub open spec fn b64_byte2(c: u8, d: u8) -> u8 {
    ((((c as int) * 64) + (d as int)) % 256) as u8
}

/// The bytes written for the values left over at the end of the input.
pub open spec fn b64_tail(chunk: Seq<u8>) -> Seq<u8> {
    if chunk.len() == 0 {
        Seq::empty()
    } else if chunk.len() >= 3 {
        seq![b64_byte0(chunk[0], chunk[1]), b64_byte1(chunk[1], chunk[2])]
    } else if chunk.len() == 2 {
        seq![b64_byte0(chunk[0], chunk[1])]
    } else {
        seq![b64_byte0(chunk[0], 0)]
    }
}

/// Base64 decoding from position `p` on, with `chunk` the values read since the
/// last full group and `last` the position just after that group; bytes that are
/// not base64 digits are skipped. Gives the decoded bytes and the final cursor.
pub open spec fn spec_b64_scan(s: Seq<u8>, p: int, chunk: Seq<u8>, last: int, partial: bool) -> (Seq<u8>, int)
    decreases s.len() - p,
{
    if p < 0 || p >= s.len() {
        (if !partial { b64_tail(chunk) } else { Seq::empty() }, if partial { last } else { p })
    } else {
        match spec_base64_value(s[p]) {
            Some(v) => {
                let c2 = chunk.push(v);
                if c2.len() >= 4 {
                    let rest = spec_b64_scan(s, p + 1, Seq::empty(), p + 1, partial);
                    (seq![b64_byte0(c2[0], c2[1]), b64_byte1(c2[1], c2[2]), b64_byte2(c2[2], c2[3])] + rest.0, rest.1)
                } else {
                    spec_b64_scan(s, p + 1, c2, last, partial)
                }
            },
            None => spec_b64_scan(s, p + 1, chunk, last, partial),
        }
    }
}

pub open spec fn spec_base64_body(s: Seq<u8>, i: int, partial: bool) -> (Seq<u8>, int) {
    spec_b64_scan(s, i, Seq::empty(), i, partial)
}

fn b64_bytes(a: u8, b: u8, c: u8, d: u8) -> (r: (u8, u8, u8))
    requires
        a < 64,
        b < 64,
        c < 64,
        d < 64,
    ensures
        r.0 == b64_byte0(a, b),
        r.1 == b64_byte1(b, c),
        r.2 == b64_byte2(c, d),
{
    let x: u32 = (a as u32) * 4 + (b as u32) / 16;
    let y: u32 = (b as u32) * 16 + (c as u32) / 4;
    let z: u32 = (c as u32) * 64 + (d as u32);
    ((x % 256) as u8, (y % 256) as u8, (z % 256) as u8)
}

/// Decodes base64 text from `indx` to the end of `message`. With `partial`, the
/// values after the last full group are left for a later call, and the cursor
/// stops after that group.
pub fn mailmime_base64_body_parse_impl(message: &[u8], indx: usize, partial: bool) -> (r: Result<(Vec<u8>, usize), MailError>)
    requires
        indx <= message@.len(),
    ensures
        r matches Ok((v, e)) && (v@, e as int) == spec_base64_body(message@, indx as int, partial),
{
    let mut out: Vec<u8> = Vec::new();
    let mut chunk: Vec<u8> = Vec::new();
    let mut cur: usize = indx;
    let mut last: usize = indx;
    while cur < message.len()
        invariant
            indx <= cur <= message@.len(),
            indx <= last <= cur,
            chunk@.len() < 4,
            forall|k: int| 0 <= k < chunk@.len() ==> #[trigger] chunk@[k] < 64,
            ({
                let whole = spec_base64_body(message@, indx as int, partial);
                let rest = spec_b64_scan(message@, cur as int, chunk@, last as int, partial);
                whole == (out@ + rest.0, rest.1)
            }),
        decreases message@.len() - cur,
    {
        let ghost out0 = out@;
        let ghost rest0 = spec_b64_scan(message@, cur as int, chunk@, last as int, partial);
        match get_base64_value(message[cur]) {
            Some(v) => {
                chunk.push(v);
                if chunk.len() >= 4 {
                    let (x, y, z) = b64_bytes(chunk[0], chunk[1], chunk[2], chunk[3]);
                    out.push(x);
                    out.push(y);
                    out.push(z);
                    chunk = Vec::new();
                    last = cur + 1;
                    proof {
                        let rest1 = spec_b64_scan(message@, (cur + 1) as int, Seq::empty(), (cur + 1) as int, partial);
                        assert(rest0.0 =~= seq![x, y, z] + rest1.0);
                        assert(out@ =~= out0 + seq![x, y, z]);
                        assert(out0 + rest0.0 =~= out@ + rest1.0);
                    }
                }
            },
            None => {},
        }
        cur = cur + 1;
    }
    let ghost out0 = out@;
    if !partial && chunk.len() > 0 {
        let c1: u8 = if chunk.len() >= 2 { chunk[1] } else { 0 };
        let (x, y, _z) = b64_bytes(chunk[0], c1, if chunk.len() >= 3 { chunk[2] } else { 0 }, 0);
        out.push(x);
        if chunk.len() >= 3 {
            out.push(y);
        }
        proof {
            assert(out@ =~= out0 + b64_tail(chunk@));
        }
    } else {
        proof {
            assert(out@ =~= out0 + Seq::<u8>::empty());
        }
    }
    if partial {
        Ok((out, last))
    } else {
        Ok((out, cur))
    }
}

/// Decodes base64 text from `indx` to the end of `message`.
pub fn mailmime_base64_body_parse(message: &[u8], indx: usize) -> (r: Result<(Vec<u8>, usize), MailError>)
    requires
        indx <= message@.len(),
    ensures
        r matches Ok((v, e)) && (v@, e as int) == spec_base64_body(message@, indx as int, false),
{
    mailmime_base64_body_parse_impl(message, indx, false)
}

/// The value of a hexadecimal digit; other bytes count as 0.
pub open spec fn spec_hexa_to_char(c: u8) -> u8 {
    if 48 <= c <= 57 {
        (c - 48) as u8
    } else if 97 <= c <= 102 {
        (c - 97 + 10) as u8
    } else if 65 <= c <= 70 {
        (c - 65 + 10) as u8
    } else {
        0
    }
}

pub fn hexa_to_char(c: u8) -> (r: u8)
    ensures
        r == spec_hexa_to_char(c),
        r < 16,
{
    if 48 <= c && c <= 57 {
        return c - 48;
    }
    if 97 <= c && c <= 102 {
        return c - 97 + 10;
    }
    if 65 <= c && c <= 70 {
        return c - 65 + 10;
    }
    0
}

/// The byte that two hexadecimal digits stand for.
pub open spec fn spec_to_char(a: u8, b: u8) -> u8 {
    (spec_hexa_to_char(a) * 16 + spec_hexa_to_char(b)) as u8
}

pub fn to_char(a: u8, b: u8) -> (r: u8)
    ensures
        r == spec_to_char(a, b),
{
    let h = hexa_to_char(a);
    let l = hexa_to_char(b);
    h * 16 + l
}

/// The states of the quoted-printable decoder.
#[derive(PartialEq, Eq, Structural, Clone, Copy, Debug)]
pub enum QpState {
    Normal,
    Coded,
    Cr,
}

pub open spec fn qp_rank(st: QpState) -> int {
    match st {
        QpState::Coded => 0,
        QpState::Normal => 1,
        QpState::Cr => 2,
    }
}

/// Quoted-printable decoding from position `p` in state `st`. In headers an
/// underscore stands for a space. Gives the decoded bytes and the final cursor;
/// with `partial`, an escape cut short by the end of the input is left unread,
/// else it is kept as it is written (`=` and what follows).
pub open spec fn spec_qp_scan(s: Seq<u8>, p: int, st: QpState, in_header: bool, partial: bool) -> (Seq<u8>, int)
    decreases s.len() - p, qp_rank(st),
{
    if p < 0 || p >= s.len() {
        (Seq::empty(), if partial { s.len() as int } else { p })
    } else {
        match st {
            QpState::Normal => {
                let c = s[p];
                if c == 61 {
                    spec_qp_scan(s, p, QpState::Coded, in_header, partial)
                } else if c == 10 {
                    let rest = spec_qp_scan(s, p + 1, QpState::Normal, in_header, partial);
                    (seq![13u8, 10u8] + rest.0, rest.1)
                } else if c == 13 {
                    spec_qp_scan(s, p + 1, QpState::Cr, in_header, partial)
                } else if c == 95 && in_header {
                    let rest = spec_qp_scan(s, p + 1, QpState::Normal, in_header, partial);
                    (seq![32u8] + rest.0, rest.1)
                } else {
                    let rest = spec_qp_scan(s, p + 1, QpState::Normal, in_header, partial);
                    (seq![c] + rest.0, rest.1)
                }
            },
            QpState::Cr => {
                if s[p] == 10 {
                    let rest = spec_qp_scan(s, p + 1, QpState::Normal, in_header, partial);
                    (seq![13u8, 10u8] + rest.0, rest.1)
                } else {
                    let rest = spec_qp_scan(s, p, QpState::Normal, in_header, partial);
                    (seq![13u8, 10u8] + rest.0, rest.1)
                }
            },
            QpState::Coded => {
                if p + 1 >= s.len() {
                    if partial {
                        (Seq::empty(), p)
                    } else {
                        let rest = spec_qp_scan(s, p + 1, QpState::Normal, in_header, partial);
                        (seq![61u8] + rest.0, rest.1)
                    }
                } else if s[p + 1] == 10 {
                    spec_qp_scan(s, p + 2, QpState::Normal, in_header, partial)
                } else if s[p + 1] == 13 {
                    if p + 2 >= s.len() {
                        (Seq::empty(), p)
                    } else if s[p + 2] == 10 {
                        spec_qp_scan(s, p + 3, QpState::Normal, in_header, partial)
                    } else {
                        spec_qp_scan(s, p + 2, QpState::Normal, in_header, partial)
                    }
                } else if p + 2 >= s.len() {
                    if partial {
                        (Seq::empty(), p)
                    } else {
                        (seq![61u8, s[p + 1]], p + 2)
                    }
                } else {
                    let rest = spec_qp_scan(s, p + 3, QpState::Normal, in_header, partial);
                    (seq![spec_to_char(s[p + 1], s[p + 2])] + rest.0, rest.1)
                }
            },
        }
    }
}

pub open spec fn spec_quoted_printable_body(s: Seq<u8>, i: int, in_header: bool, partial: bool) -> (Seq<u8>, int) {
    spec_qp_scan(s, i, QpState::Normal, in_header, partial)
}

/// Decodes quoted-printable text from `indx` to the end of `message`.
#[verifier::rlimit(40)]
pub fn mailmime_quoted_printable_body_parse_impl(message: &[u8], indx: usize, in_header: bool, partial: bool) -> (r: Result<(Vec<u8>, usize), MailError>)
    requires
        indx <= message@.len(),
    ensures
        r matches Ok((v, e)) && (v@, e as int) == spec_quoted_printable_body(message@, indx as int, in_header, partial),
{
    let mut out: Vec<u8> = Vec::new();
    let mut cur: usize = indx;
    let mut st = QpState::Normal;
    let len = message.len();
    loop
        invariant
            len == message@.len(),
            indx <= cur <= len,
            ({
                let whole = spec_quoted_printable_body(message@, indx as int, in_header, partial);
                let rest = spec_qp_scan(message@, cur as int, st, in_header, partial);
                whole == (out@ + rest.0, rest.1)
            }),
        ensures
            ({
                let whole = spec_quoted_printable_body(message@, indx as int, in_header, partial);
                whole == (out@, cur as int)
            }),
        decreases len - cur, qp_rank(st),
    {
        let ghost out0 = out@;
        let ghost rest0 = spec_qp_scan(message@, cur as int, st, in_header, partial);
        if cur >= len {
            if partial {
                cur = len;
            }
            proof {
                assert(out@ =~= out0 + rest0.0);
            }
            break;
        }
        let c = message[cur];
        match st {
            QpState::Normal => {
                if c == 61 {
                    st = QpState::Coded;
                } else if c == 10 {
                    out.push(13);
                    out.push(10);
                    cur = cur + 1;
                    proof {
                        let rest1 = spec_qp_scan(message@, cur as int, st, in_header, partial);
                        assert(out0 + rest0.0 =~= out@ + rest1.0);
                    }
                } else if c == 13 {
                    st = QpState::Cr;
                    cur = cur + 1;
                } else if c == 95 && in_header {
                    out.push(32);
                    cur = cur + 1;
                    proof {
                        let rest1 = spec_qp_scan(message@, cur as int, st, in_header, partial);
                        assert(out0 + rest0.0 =~= out@ + rest1.0);
                    }
                } else {
                    out.push(c);
                    cur = cur + 1;
                    proof {
                        let rest1 = spec_qp_scan(message@, cur as int, st, in_header, partial);
                        assert(out0 + rest0.0 =~= out@ + rest1.0);
                    }
                }
            },
            QpState::Cr => {
                out.push(13);
                out.push(10);
                if c == 10 {
                    cur = cur + 1;
                }
                st = QpState::Normal;
                proof {
                    let rest1 = spec_qp_scan(message@, cur as int, st, in_header, partial);
                    assert(out0 + rest0.0 =~= out@ + rest1.0);
                }
            },
            QpState::Coded => {
                if cur + 1 >= len {
                    if partial {
                        proof {
                            assert(out@ =~= out0 + rest0.0);
                        }
                        break;
                    }
                    out.push(61);
                    cur = cur + 1;
                    st = QpState::Normal;
                    proof {
                        let rest1 = spec_qp_scan(message@, cur as int, st, in_header, partial);
                        assert(out0 + rest0.0 =~= out@ + rest1.0);
                    }
                } else if message[cur + 1] == 10 {
                    cur = cur + 2;
                    st = QpState::Normal;
                } else if message[cur + 1] == 13 {
                    if cur + 2 >= len {
                        proof {
                            assert(out@ =~= out0 + rest0.0);
                        }
                        break;
                    }
                    if message[cur + 2] == 10 {
                        cur = cur + 3;
                    } else {
                        cur = cur + 2;
                    }
                    st = QpState::Normal;
                } else if cur + 2 >= len {
                    if partial {
                        proof {
                            assert(out@ =~= out0 + rest0.0);
                        }
                        break;
                    }
                    out.push(61);
                    out.push(message[cur + 1]);
                    cur = cur + 2;
                    proof {
                        assert(out@ =~= out0 + rest0.0);
                    }
                    break;
                } else {
                    let ch = to_char(message[cur + 1], message[cur + 2]);
                    out.push(ch);
                    cur = cur + 3;
                    st = QpState::Normal;
                    proof {
                        let rest1 = spec_qp_scan(message@, cur as int, st, in_header, partial);
                        assert(out0 + rest0.0 =~= out@ + rest1.0);
                    }
                }
            },
        }
    }
    Ok((out, cur))
}

/// Decodes quoted-printable text from `indx` to the end of `message`.
pub fn mailmime_quoted_printable_body_parse(message: &[u8], indx: usize, in_header: bool) -> (r: Result<(Vec<u8>, usize), MailError>)
    requires
        indx <= message@.len(),
    ensures
        r matches Ok((v, e)) && (v@, e as int) == spec_quoted_printable_body(message@, indx as int, in_header, false),
{
    mailmime_quoted_printable_body_parse_impl(message, indx, in_header, false)
}

/// Takes the bytes from `indx` to the end as they are.
pub fn mailmime_binary_body_parse(message: &[u8], indx: usize) -> (r: Result<(Vec<u8>, usize), MailError>)
    requires
        indx <= message@.len(),
    ensures
        r matches Ok((v, e)) && v@ == message@.subrange(indx as int, message@.len() as int)
            && e == message@.len(),
{
    Ok((crate::lex::copy_range(message, indx, message.len()), message.len()))
}

/// A part's body decoded by its transfer encoding: base64 (5), quoted-printable
/// (4), anything else taken as it stands. `partial` leaves an incomplete
/// unit at the end unread.
pub open spec fn spec_part_decode(s: Seq<u8>, i: int, encoding: i32, partial: bool) -> (Seq<u8>, int) {
    if encoding == 5 {
        spec_base64_body(s, i, partial)
    } else if encoding == 4 {
        spec_quoted_printable_body(s, i, false, partial)
    } else {
        (s.subrange(i, s.len() as int), s.len() as int)
    }
}

fn mailmime_part_parse_impl(message: &[u8], indx: usize, encoding: i32, partial: bool) -> (r: Result<(Vec<u8>, usize), MailError>)
    requires
        indx <= message@.len(),
    ensures
        r matches Ok((v, e)) && (v@, e as int) == spec_part_decode(message@, indx as int, encoding, partial),
{
    if encoding == 5 {
        mailmime_base64_body_parse_impl(message, indx, partial)
    } else if encoding == 4 {
        mailmime_quoted_printable_body_parse_impl(message, indx, false, partial)
    } else {
        mailmime_binary_body_parse(message, indx)
    }
}

/// Decodes a whole part's body from `indx` on.
pub fn mailmime_part_parse(message: &[u8], indx: usize, encoding: i32) -> (r: Result<(Vec<u8>, usize), MailError>)
    requires
        indx <= message@.len(),
    ensures
        r matches Ok((v, e)) && (v@, e as int) == spec_part_decode(message@, indx as int, encoding, false),
{
    mailmime_part_parse_impl(message, indx, encoding, false)
}

/// Decodes a piece of a part's body that more may follow; an incomplete
/// unit at its end is left for the next piece.
pub fn mailmime_part_parse_partial(message: &[u8], indx: usize, encoding: i32) -> (r: Result<(Vec<u8>, usize), MailError>)
    requires
        indx <= message@.len(),
    ensures
        r matches Ok((v, e)) && (v@, e as int) == spec_part_decode(message@, indx as int, encoding, true),
{
    mailmime_part_parse_impl(message, indx, encoding, true)
}


proof fn lemma_b64_scan_end(s: Seq<u8>, p: int, chunk: Seq<u8>, last: int)
    requires
        0 <= p <= s.len(),
    ensures
        spec_b64_scan(s, p, chunk, last, false).1 == s.len(),
    decreases s.len() - p,
{
    if p < s.len() {
        match spec_base64_value(s[p]) {
            Some(v) => {
                let c2 = chunk.push(v);
                if c2.len() >= 4 {
                    lemma_b64_scan_end(s, p + 1, Seq::empty(), p + 1);
                } else {
                    lemma_b64_scan_end(s, p + 1, c2, last);
                }
            },
            None => lemma_b64_scan_end(s, p + 1, chunk, last),
        }
    }
}

/// Decoding a whole base64 body reads every byte of it.
pub proof fn law_base64_reads_to_end(s: Seq<u8>, i: int)
    requires
        0 <= i <= s.len(),
    ensures
        spec_base64_body(s, i, false).1 == s.len(),
{
    lemma_b64_scan_end(s, i, Seq::empty(), i);
}

/// The base64 digit for a value below 64.
pub open spec fn b64_digit(v: int) -> u8 {
    if v < 26 {
        (65 + v) as u8
    } else if v < 52 {
        (97 + v - 26) as u8
    } else if v < 62 {
        (48 + v - 52) as u8
    } else if v == 62 {
        43u8
    } else {
        47u8
    }
}

/// The base64 encoding of `b` (RFC 4648), with `=` padding and no line
/// breaks.
pub open spec fn b64_encode(b: Seq<u8>) -> Seq<u8>
    decreases b.len(),
{
    let x = b[0] as int;
    let y = b[1] as int;
    let z = b[2] as int;
    if b.len() == 0 {
        Seq::empty()
    } else if b.len() == 1 {
        seq![b64_digit(x / 4), b64_digit((x % 4) * 16), 61u8, 61u8]
    } else if b.len() == 2 {
        seq![b64_digit(x / 4), b64_digit((x % 4) * 16 + y / 16), b64_digit((y % 16) * 4), 61u8]
    } else {
        seq![b64_digit(x / 4), b64_digit((x % 4) * 16 + y / 16),
            b64_digit((y % 16) * 4 + z / 64), b64_digit(z % 64)]
            + b64_encode(b.subrange(3, b.len() as int))
    }
}

proof fn lemma_b64_digit(v: int)
    requires
        0 <= v < 64,
    ensures
        spec_base64_value(b64_digit(v)) == Some(v as u8),
{
}

proof fn lemma_b64_bytes(x: int, y: int, z: int)
    requires
        0 <= x < 256,
        0 <= y < 256,
        0 <= z < 256,
    ensures
        b64_byte0((x / 4) as u8, ((x % 4) * 16 + y / 16) as u8) == x,
        b64_byte1(((x % 4) * 16 + y / 16) as u8, ((y % 16) * 4 + z / 64) as u8) == y,
        b64_byte2(((y % 16) * 4 + z / 64) as u8, (z % 64) as u8) == z,
{
    assert(0 <= x / 4 < 64 && 0 <= (x % 4) * 16 + y / 16 < 64) by (nonlinear_arith)
        requires 0 <= x < 256, 0 <= y < 256;
    assert(0 <= (y % 16) * 4 + z / 64 < 64 && 0 <= z % 64 < 64) by (nonlinear_arith)
        requires 0 <= y < 256, 0 <= z < 256;
    assert(((x / 4) * 4 + ((x % 4) * 16 + y / 16) / 16) % 256 == x) by (nonlinear_arith)
        requires 0 <= x < 256, 0 <= y < 256;
    assert(((((x % 4) * 16 + y / 16) * 16) + ((y % 16) * 4 + z / 64) / 4) % 256 == y) by (nonlinear_arith)
        requires 0 <= x < 256, 0 <= y < 256, 0 <= z < 256;
    assert(((((y % 16) * 4 + z / 64) * 64) + z % 64) % 256 == z) by (nonlinear_arith)
        requires 0 <= y < 256, 0 <= z < 256;
}

proof fn lemma_b64_scan_encoded(x: Seq<u8>, b: Seq<u8>)
    ensures
        spec_b64_scan(x + b64_encode(b), x.len() as int, Seq::empty(), x.len() as int, false)
            == (b, (x + b64_encode(b)).len() as int),
    decreases b.len(),
{
    let s = x + b64_encode(b);
    let p = x.len() as int;
    if b.len() == 0 {
        assert(s =~= x);
        assert(b =~= Seq::<u8>::empty());
    } else {
        let x0 = b[0] as int;
        let y1: int = if b.len() >= 2 { b[1] as int } else { 0 };
        let z1: int = if b.len() >= 3 { b[2] as int } else { 0 };
        lemma_b64_bytes(x0, y1, z1);
        let v0 = x0 / 4;
        let v1 = (x0 % 4) * 16 + y1 / 16;
        let v2 = (y1 % 16) * 4 + z1 / 64;
        let v3 = z1 % 64;
        lemma_b64_digit(v0);
        lemma_b64_digit(v1);
        lemma_b64_digit(v2);
        lemma_b64_digit(v3);
        assert(s[p] == b64_digit(v0));
        assert(s[p + 1] == b64_digit(v1));
        let c1 = seq![v0 as u8];
        let c2 = c1.push(v1 as u8);
        assert(spec_b64_scan(s, p, Seq::empty(), p, false) == spec_b64_scan(s, p + 1, c1, p, false)) by {
            assert(Seq::<u8>::empty().push(v0 as u8) =~= c1);
        }
        assert(spec_b64_scan(s, p + 1, c1, p, false) == spec_b64_scan(s, p + 2, c2, p, false));
        if b.len() == 1 {
            assert(s.len() == p + 4);
            assert(s[p + 2] == 61u8 && s[p + 3] == 61u8);
            assert(spec_b64_scan(s, p + 2, c2, p, false) == spec_b64_scan(s, p + 3, c2, p, false));
            assert(spec_b64_scan(s, p + 3, c2, p, false) == spec_b64_scan(s, p + 4, c2, p, false));
            assert(b64_tail(c2) =~= b);
        } else {
            assert(s[p + 2] == b64_digit(v2));
            let c3 = c2.push(v2 as u8);
            assert(spec_b64_scan(s, p + 2, c2, p, false) == spec_b64_scan(s, p + 3, c3, p, false));
            if b.len() == 2 {
                assert(s.len() == p + 4);
                assert(s[p + 3] == 61u8);
                assert(spec_b64_scan(s, p + 3, c3, p, false) == spec_b64_scan(s, p + 4, c3, p, false));
                assert(b64_tail(c3) =~= b);
            } else {
                let r = b.subrange(3, b.len() as int);
                let x1 = x + seq![b64_digit(v0), b64_digit(v1), b64_digit(v2), b64_digit(v3)];
                assert(s =~= x1 + b64_encode(r));
                assert(s[p + 3] == b64_digit(v3));
                let c4 = c3.push(v3 as u8);
                assert(spec_b64_scan(s, p + 3, c3, p, false).0
                    == seq![b64_byte0(c4[0], c4[1]), b64_byte1(c4[1], c4[2]), b64_byte2(c4[2], c4[3])]
                        + spec_b64_scan(s, p + 4, Seq::empty(), p + 4, false).0);
                lemma_b64_scan_encoded(x1, r);
                assert(seq![b[0], b[1], b[2]] + r =~= b);
            }
        }
    }
}

/// A base64 body that encodes `b` (with `=` padding, no line breaks) is
/// decoded back to `b`, every byte of it being read.
pub proof fn law_base64_round_trip(b: Seq<u8>)
    ensures
        spec_base64_body(b64_encode(b), 0, false) == (b, b64_encode(b).len() as int),
{
    lemma_b64_scan_encoded(Seq::empty(), b);
    assert(Seq::<u8>::empty() + b64_encode(b) =~= b64_encode(b));
}

/// The base64 values of the bytes of `s`, in order, other bytes left out.
pub open spec fn b64_values(s: Seq<u8>) -> Seq<u8>
    decreases s.len(),
{
    if s.len() == 0 {
        Seq::empty()
    } else {
        (match spec_base64_value(s[0]) {
            Some(v) => seq![v],
            None => Seq::empty(),
        }) + b64_values(s.drop_first())
    }
}

/// Decoding a sequence of base64 values, `chunk` being the values read since
/// the last full group.
pub open spec fn b64_decode_values(vs: Seq<u8>, chunk: Seq<u8>) -> Seq<u8>
    decreases vs.len(),
{
    if vs.len() == 0 {
        b64_tail(chunk)
    } else {
        let c2 = chunk.push(vs[0]);
        if c2.len() >= 4 {
            seq![b64_byte0(c2[0], c2[1]), b64_byte1(c2[1], c2[2]), b64_byte2(c2[2], c2[3])]
                + b64_decode_values(vs.drop_first(), Seq::empty())
        } else {
            b64_decode_values(vs.drop_first(), c2)
        }
    }
}

/// `s` without its CR and LF bytes.
pub open spec fn strip_crlf(s: Seq<u8>) -> Seq<u8>
    decreases s.len(),
{
    if s.len() == 0 {
        Seq::empty()
    } else {
        (if s[0] == 13 || s[0] == 10 { Seq::empty() } else { seq![s[0]] }) + strip_crlf(s.drop_first())
    }
}

proof fn lemma_b64_scan_values(s: Seq<u8>, p: int, chunk: Seq<u8>, last: int)
    requires
        0 <= p <= s.len(),
    ensures
        spec_b64_scan(s, p, chunk, last, false).0 == b64_decode_values(b64_values(s.subrange(p, s.len() as int)), chunk),
    decreases s.len() - p,
{
    let t = s.subrange(p, s.len() as int);
    if p == s.len() {
        assert(t =~= Seq::<u8>::empty());
    } else {
        assert(t.drop_first() =~= s.subrange(p + 1, s.len() as int));
        assert(t[0] == s[p]);
        match spec_base64_value(s[p]) {
            Some(v) => {
                let c2 = chunk.push(v);
                assert((seq![v] + b64_values(t.drop_first())).drop_first() =~= b64_values(t.drop_first()));
                if c2.len() >= 4 {
                    lemma_b64_scan_values(s, p + 1, Seq::empty(), p + 1);
                } else {
                    lemma_b64_scan_values(s, p + 1, c2, last);
                }
            },
            None => {
                assert(b64_values(t) =~= b64_values(t.drop_first()));
                lemma_b64_scan_values(s, p + 1, chunk, last);
            },
        }
    }
}

proof fn lemma_b64_values_strip(s: Seq<u8>)
    ensures
        b64_values(s) == b64_values(strip_crlf(s)),
    decreases s.len(),
{
    if s.len() > 0 {
        lemma_b64_values_strip(s.drop_first());
        if s[0] == 13 || s[0] == 10 {
            assert(spec_base64_value(s[0]) is None);
            assert(strip_crlf(s) =~= strip_crlf(s.drop_first()));
            assert(b64_values(s) =~= b64_values(s.drop_first()));
        } else {
            let u = strip_crlf(s);
            assert(u =~= seq![s[0]] + strip_crlf(s.drop_first()));
            assert(u.len() > 0 && u[0] == s[0]);
            assert(u.drop_first() =~= strip_crlf(s.drop_first()));
        }
    }
}

/// A base64 body that encodes `b` (with `=` padding), with CR and LF bytes
/// put anywhere between its characters, is decoded back to `b`, every byte
/// of it being read.
pub proof fn law_base64_round_trip_with_line_breaks(b: Seq<u8>, s: Seq<u8>)
    requires
        strip_crlf(s) == b64_encode(b),
    ensures
        spec_base64_body(s, 0, false) == (b, s.len() as int),
{
    let e = b64_encode(b);
    law_base64_round_trip(b);
    lemma_b64_scan_values(s, 0, Seq::empty(), 0);
    lemma_b64_scan_values(e, 0, Seq::empty(), 0);
    assert(s.subrange(0, s.len() as int) =~= s);
    assert(e.subrange(0, e.len() as int) =~= e);
    lemma_b64_values_strip(s);
    lemma_b64_scan_end(s, 0, Seq::empty(), 0);
}

/// Bytes that quoted-printable decoding copies as they are: no `=`, CR, LF
/// or underscore.
pub open spec fn qp_plain(t: Seq<u8>) -> bool {
    forall|m: int| 0 <= m < t.len() ==> #[trigger] t[m] != 61 && t[m] != 13 && t[m] != 10 && t[m] != 95
}

proof fn lemma_qp_plain_run(x: Seq<u8>, a: Seq<u8>, rest: Seq<u8>, in_header: bool, partial: bool)
    requires
        qp_plain(a),
    ensures
        spec_qp_scan(x + a + rest, x.len() as int, QpState::Normal, in_header, partial)
            == ({
                let r = spec_qp_scan(x + a + rest, (x.len() + a.len()) as int, QpState::Normal, in_header, partial);
                (a + r.0, r.1)
            }),
    decreases a.len(),
{
    let s = x + a + rest;
    if a.len() == 0 {
        assert(a =~= Seq::<u8>::empty());
        let r = spec_qp_scan(s, x.len() as int, QpState::Normal, in_header, partial);
        assert(a + r.0 =~= r.0);
    } else {
        let x1 = x.push(a[0]);
        let a1 = a.drop_first();
        assert(qp_plain(a1)) by {
            assert forall|m: int| 0 <= m < a1.len() implies #[trigger] a1[m] != 61 && a1[m] != 13 && a1[m] != 10 && a1[m] != 95 by {
                assert(a1[m] == a[m + 1]);
            }
        }
        assert(s =~= x1 + a1 + rest);
        assert(s[x.len() as int] == a[0]);
        assert(a[0] != 61 && a[0] != 13 && a[0] != 10 && a[0] != 95);
        lemma_qp_plain_run(x1, a1, rest, in_header, partial);
        let r = spec_qp_scan(s, (x.len() + a.len()) as int, QpState::Normal, in_header, partial);
        assert(seq![a[0]] + (a1 + r.0) =~= a + r.0);
    }
}

/// Quoted-printable decoding drops a soft line break: for bytes `a` and `b`
/// with no `=`, CR, LF or underscore, decoding `a`, `=` LF (or `=` CR LF)
/// and `b` gives `a` followed by `b`, and the whole input is read.
pub proof fn law_quoted_printable_soft_break(a: Seq<u8>, b: Seq<u8>, in_header: bool, partial: bool)
    requires
        qp_plain(a),
        qp_plain(b),
    ensures
        spec_quoted_printable_body(a + seq![61u8, 10u8] + b, 0, in_header, partial)
            == (a + b, (a.len() + b.len() + 2) as int),
        spec_quoted_printable_body(a + seq![61u8, 13u8, 10u8] + b, 0, in_header, partial)
            == (a + b, (a.len() + b.len() + 3) as int),
{
    let e = Seq::<u8>::empty();
    let s1 = a + seq![61u8, 10u8] + b;
    let s2 = a + seq![61u8, 13u8, 10u8] + b;
    assert(s1 =~= e + a + (seq![61u8, 10u8] + b));
    assert(s2 =~= e + a + (seq![61u8, 13u8, 10u8] + b));
    lemma_qp_plain_run(e, a, seq![61u8, 10u8] + b, in_header, partial);
    lemma_qp_plain_run(e, a, seq![61u8, 13u8, 10u8] + b, in_header, partial);
    let p = a.len() as int;
    assert(s1[p] == 61u8 && s1[p + 1] == 10u8);
    assert(s2[p] == 61u8 && s2[p + 1] == 13u8 && s2[p + 2] == 10u8);
    assert(s1 =~= (a + seq![61u8, 10u8]) + b + e);
    assert(s2 =~= (a + seq![61u8, 13u8, 10u8]) + b + e);
    lemma_qp_plain_run(a + seq![61u8, 10u8], b, e, in_header, partial);
    lemma_qp_plain_run(a + seq![61u8, 13u8, 10u8], b, e, in_header, partial);
    assert(spec_qp_scan(s1, s1.len() as int, QpState::Normal, in_header, partial) == (e, s1.len() as int));
    assert(spec_qp_scan(s2, s2.len() as int, QpState::Normal, in_header, partial) == (e, s2.len() as int));
    assert(b + e =~= b);
    assert(spec_qp_scan(s1, p, QpState::Normal, in_header, partial)
        == spec_qp_scan(s1, p, QpState::Coded, in_header, partial));
    assert(spec_qp_scan(s1, p, QpState::Coded, in_header, partial)
        == spec_qp_scan(s1, p + 2, QpState::Normal, in_header, partial));
    assert(spec_qp_scan(s2, p, QpState::Normal, in_header, partial)
        == spec_qp_scan(s2, p, QpState::Coded, in_header, partial));
    assert(spec_qp_scan(s2, p, QpState::Coded, in_header, partial)
        == spec_qp_scan(s2, p + 3, QpState::Normal, in_header, partial));
}

/// The upper-case hexadecimal digit for a value below 16.
pub open spec fn hex_digit_upper(d: int) -> u8 {
    if d < 10 { (48 + d) as u8 } else { (55 + d) as u8 }
}

/// Quoted-printable decoding turns an escape into the byte it names: for
/// bytes `a` and `b` with no `=`, CR, LF or underscore and any byte `v`,
/// decoding `a`, `=`, the two hexadecimal digits of `v` and `b` gives `a`,
/// `v` and `b`, and the whole input is read.
pub proof fn law_quoted_printable_escape(a: Seq<u8>, b: Seq<u8>, v: u8, in_header: bool, partial: bool)
    requires
        qp_plain(a),
        qp_plain(b),
    ensures
        spec_quoted_printable_body(a + seq![61u8, hex_digit_upper(v as int / 16), hex_digit_upper(v as int % 16)] + b, 0, in_header, partial)
            == (a + seq![v] + b, (a.len() + b.len() + 3) as int),
{
    let e = Seq::<u8>::empty();
    let h1 = hex_digit_upper(v as int / 16);
    let h2 = hex_digit_upper(v as int % 16);
    let esc = seq![61u8, h1, h2];
    let s1 = a + esc + b;
    assert(s1 =~= e + a + (esc + b));
    lemma_qp_plain_run(e, a, esc + b, in_header, partial);
    let p = a.len() as int;
    assert(s1[p] == 61u8 && s1[p + 1] == h1 && s1[p + 2] == h2);
    assert(s1 =~= (a + esc) + b + e);
    lemma_qp_plain_run(a + esc, b, e, in_header, partial);
    assert(spec_qp_scan(s1, s1.len() as int, QpState::Normal, in_header, partial) == (e, s1.len() as int));
    assert(b + e =~= b);
    assert(spec_hexa_to_char(h1) == v as int / 16);
    assert(spec_hexa_to_char(h2) == v as int % 16);
    assert(spec_to_char(h1, h2) == v) by (nonlinear_arith)
        requires spec_hexa_to_char(h1) == v as int / 16, spec_hexa_to_char(h2) == v as int % 16,
            spec_to_char(h1, h2) == ((spec_hexa_to_char(h1) * 16 + spec_hexa_to_char(h2)) as u8);
    assert(spec_qp_scan(s1, p, QpState::Normal, in_header, partial)
        == spec_qp_scan(s1, p, QpState::Coded, in_header, partial));
    let r = spec_qp_scan(s1, p + 3, QpState::Normal, in_header, partial);
    assert(spec_qp_scan(s1, p, QpState::Coded, in_header, partial) == (seq![v] + r.0, r.1));
    assert(a + (seq![v] + b) =~= a + seq![v] + b);
}

proof fn lemma_qp_scan_end(s: Seq<u8>, p: int, st: QpState, in_header: bool)
    requires
        0 <= p <= s.len(),
        st == QpState::Coded ==> p < s.len() && s[p] == 61,
    ensures
        spec_qp_scan(s, p, st, in_header, false).1 == s.len()
            || (s.len() >= 2 && s[s.len() - 2] == 61 && s[s.len() - 1] == 13
                && spec_qp_scan(s, p, st, in_header, false).1 == s.len() - 2),
    decreases s.len() - p, qp_rank(st),
{
    if p < s.len() {
        match st {
            QpState::Normal => {
                let c = s[p];
                if c == 61 {
                    lemma_qp_scan_end(s, p, QpState::Coded, in_header);
                } else if c == 13 {
                    lemma_qp_scan_end(s, p + 1, QpState::Cr, in_header);
                } else {
                    lemma_qp_scan_end(s, p + 1, QpState::Normal, in_header);
                }
            },
            QpState::Cr => {
                if s[p] == 10 {
                    lemma_qp_scan_end(s, p + 1, QpState::Normal, in_header);
                } else {
                    lemma_qp_scan_end(s, p, QpState::Normal, in_header);
                }
            },
            QpState::Coded => {
                if p + 1 >= s.len() {
                    lemma_qp_scan_end(s, p + 1, QpState::Normal, in_header);
                } else if s[p + 1] == 10 {
                    lemma_qp_scan_end(s, p + 2, QpState::Normal, in_header);
                } else if s[p + 1] == 13 {
                    if p + 2 < s.len() {
                        if s[p + 2] == 10 {
                            lemma_qp_scan_end(s, p + 3, QpState::Normal, in_header);
                        } else {
                            lemma_qp_scan_end(s, p + 2, QpState::Normal, in_header);
                        }
                    }
                } else if p + 2 < s.len() {
                    lemma_qp_scan_end(s, p + 3, QpState::Normal, in_header);
                }
            },
        }
    }
}

/// Decoding a whole quoted-printable body reads every byte of it, but for a
/// body that ends with an `=` and a CR alone: those two are left unread.
pub proof fn law_quoted_printable_reads_to_end(s: Seq<u8>, i: int, in_header: bool)
    requires
        0 <= i <= s.len(),
    ensures
        spec_quoted_printable_body(s, i, in_header, false).1 == s.len()
            || (s.len() >= 2 && s[s.len() - 2] == 61 && s[s.len() - 1] == 13
                && spec_quoted_printable_body(s, i, in_header, false).1 == s.len() - 2),
{
    lemma_qp_scan_end(s, i, QpState::Normal, in_header);
}

} // verus!
