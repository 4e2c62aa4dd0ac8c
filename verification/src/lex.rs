//! The lexical layer of RFC 2822: characters, folding white space,
//! comments, numbers and case-insensitive tokens.
//!
//! Every parser takes the message and a cursor and, on success, gives back
//! the cursor past what it read. Each is specified by a spec function over
//! the message's bytes.

use vstd::prelude::*;
use crate::MailError;
use crate::pos_view;
use crate::res_view;
use crate::chars::{CharClass, spec_class_has, class_has, spec_is_ctext, spec_is_digit, spec_is_wsp, spec_to_upper, is_ctext, is_digit, is_wsp, to_upper};

verus! {

/// The byte at `i` exists and equals `c`.
pub open spec fn at(s: Seq<u8>, i: int, c: u8) -> bool {
    0 <= i < s.len() && s[i] == c
}

pub open spec fn spec_char(s: Seq<u8>, i: int, c: u8) -> Result<int, MailError> {
    if at(s, i, c) {
        Ok(i + 1)
    } else {
        Err(MailError::Parse)
    }
}

/// Reads the byte `token` at the cursor.
pub fn mailimf_char_parse(message: &[u8], indx: usize, token: u8) -> (r: Result<usize, MailError>)
    ensures
        pos_view(r) == spec_char(message@, indx as int, token),
{
    if indx >= message.len() {
        return Err(MailError::Parse);
    }
    if message[indx] == token {
        Ok(indx + 1)
    } else {
        Err(MailError::Parse)
    }
}

/// CRLF, where the CR may be missing.
pub open spec fn spec_crlf(s: Seq<u8>, i: int) -> Result<int, MailError> {
    let j = if at(s, i, 13) { i + 1 } else { i };
    spec_char(s, j, 10)
}

pub fn mailimf_crlf_parse(message: &[u8], indx: usize) -> (r: Result<usize, MailError>)
    ensures
        pos_view(r) == spec_crlf(message@, indx as int),
{
    let cur = match mailimf_char_parse(message, indx, 13) {
        Ok(c) => c,
        Err(_) => indx,
    };
    mailimf_char_parse(message, cur, 10)
}

/// The end of the run of WSP characters that starts at `i`.
pub open spec fn spec_wsp_end(s: Seq<u8>, i: int) -> int
    decreases s.len() - i,
{
    if 0 <= i < s.len() && spec_is_wsp(s[i]) {
        spec_wsp_end(s, i + 1)
    } else {
        i
    }
}

pub proof fn lemma_wsp_end(s: Seq<u8>, i: int)
    requires
        0 <= i,
    ensures
        i <= spec_wsp_end(s, i),
        i <= s.len() ==> spec_wsp_end(s, i) <= s.len(),
        spec_wsp_end(s, i) > i ==> i < s.len() && spec_is_wsp(s[i]),
    decreases s.len() - i,
{
    if 0 <= i < s.len() && spec_is_wsp(s[i]) {
        lemma_wsp_end(s, i + 1);
    }
}

fn wsp_end(message: &[u8], indx: usize) -> (e: usize)
    requires
        indx <= message@.len(),
    ensures
        e == spec_wsp_end(message@, indx as int),
        indx <= e <= message@.len(),
{
    let mut cur: usize = indx;
    while cur < message.len() && is_wsp(message[cur])
        invariant
            indx <= cur <= message@.len(),
            spec_wsp_end(message@, indx as int) == spec_wsp_end(message@, cur as int),
        decreases message@.len() - cur,
    {
        cur = cur + 1;
    }
    cur
}

/// FWS: white space, possibly folded over one line break.
pub open spec fn spec_fws(s: Seq<u8>, i: int) -> Result<int, MailError> {
    let a = spec_wsp_end(s, i);
    match spec_crlf(s, a) {
        Ok(b) => {
            let c = spec_wsp_end(s, b);
            if c > b {
                Ok(c)
            } else if a > i {
                Ok(a)
            } else {
                Err(MailError::Parse)
            }
        },
        Err(_) => {
            if a > i {
                Ok(a)
            } else {
                Err(MailError::Parse)
            }
        },
    }
}

/// Where the cursor stands after optional FWS.
pub open spec fn spec_skip_fws(s: Seq<u8>, i: int) -> int {
    match spec_fws(s, i) {
        Ok(j) => j,
        Err(_) => i,
    }
}

pub proof fn lemma_fws(s: Seq<u8>, i: int)
    requires
        0 <= i <= s.len(),
    ensures
        spec_fws(s, i) matches Ok(j) ==> i < j <= s.len(),
        i <= spec_skip_fws(s, i) <= s.len(),
{
    let a = spec_wsp_end(s, i);
    lemma_wsp_end(s, i);
    if let Ok(b) = spec_crlf(s, a) {
        lemma_wsp_end(s, b);
    }
}

pub fn mailimf_fws_parse(message: &[u8], indx: usize) -> (r: Result<usize, MailError>)
    requires
        indx <= message@.len(),
    ensures
        pos_view(r) == spec_fws(message@, indx as int),
        r matches Ok(j) ==> indx < j <= message@.len(),
{
    proof {
        lemma_fws(message@, indx as int);
    }
    let a = wsp_end(message, indx);
    match mailimf_crlf_parse(message, a) {
        Ok(b) => {
            proof {
                lemma_wsp_end(message@, b as int);
            }
            let c = wsp_end(message, b);
            if c > b {
                Ok(c)
            } else if a > indx {
                Ok(a)
            } else {
                Err(MailError::Parse)
            }
        },
        Err(_) => {
            if a > indx {
                Ok(a)
            } else {
                Err(MailError::Parse)
            }
        },
    }
}

/// Skips optional FWS.
pub fn skip_fws(message: &[u8], indx: usize) -> (j: usize)
    requires
        indx <= message@.len(),
    ensures
        j == spec_skip_fws(message@, indx as int),
        indx <= j <= message@.len(),
{
    proof {
        lemma_fws(message@, indx as int);
    }
    match mailimf_fws_parse(message, indx) {
        Ok(j) => j,
        Err(_) => indx,
    }
}

pub open spec fn spec_wsp(s: Seq<u8>, i: int) -> Result<int, MailError> {
    if 0 <= i < s.len() && spec_is_wsp(s[i]) {
        Ok(i + 1)
    } else {
        Err(MailError::Parse)
    }
}

pub fn mailimf_wsp_parse(message: &[u8], indx: usize) -> (r: Result<usize, MailError>)
    ensures
        pos_view(r) == spec_wsp(message@, indx as int),
{
    if indx >= message.len() {
        return Err(MailError::Parse);
    }
    if is_wsp(message[indx]) {
        Ok(indx + 1)
    } else {
        Err(MailError::Parse)
    }
}

/// quoted-pair: a backslash and the byte that it quotes.
pub open spec fn spec_quoted_pair(s: Seq<u8>, i: int) -> Result<(u8, int), MailError> {
    if 0 <= i && i + 1 < s.len() && s[i] == 92 {
        Ok((s[i + 1], i + 2))
    } else {
        Err(MailError::Parse)
    }
}

pub fn mailimf_quoted_pair_parse(message: &[u8], indx: usize) -> (r: Result<(u8, usize), MailError>)
    ensures
        res_view(r) == spec_quoted_pair(message@, indx as int),
{
    if indx >= message.len() || indx + 1 >= message.len() {
        return Err(MailError::Parse);
    }
    if message[indx] != 92 {
        return Err(MailError::Parse);
    }
    Ok((message[indx + 1], indx + 2))
}

/// comment: a parenthesized text, where comments nest.
pub open spec fn spec_comment(s: Seq<u8>, i: int) -> Result<int, MailError>
    decreases s.len() - i, 0int,
{
    if at(s, i, 40) {
        match spec_comment_items(s, i + 1) {
            Ok(j) => {
                if i < j <= s.len() {
                    spec_char(s, spec_skip_fws(s, j), 41)
                } else {
                    Err(MailError::Parse)
                }
            },
            Err(e) => Err(e),
        }
    } else {
        Err(MailError::Parse)
    }
}

/// ccontent: ctext, a quoted pair or a nested comment.
pub open spec fn spec_ccontent(s: Seq<u8>, i: int) -> Result<int, MailError>
    decreases s.len() - i, 1int,
{
    if 0 <= i < s.len() {
        if spec_is_ctext(s[i]) {
            Ok(i + 1)
        } else {
            match spec_quoted_pair(s, i) {
                Ok((_, j)) => Ok(j),
                Err(_) => spec_comment(s, i),
            }
        }
    } else {
        Err(MailError::Parse)
    }
}

/// [FWS] ccontent
pub open spec fn spec_fws_ccontent(s: Seq<u8>, i: int) -> Result<int, MailError>
    decreases s.len() - i, 2int,
{
    let k = spec_skip_fws(s, i);
    if 0 <= i <= k <= s.len() {
        spec_ccontent(s, k)
    } else {
        Err(MailError::Parse)
    }
}

/// The items of a comment body, as many as can be read; gives the position after them.
pub open spec fn spec_comment_items(s: Seq<u8>, i: int) -> Result<int, MailError>
    decreases s.len() - i, 3int,
{
    if 0 <= i <= s.len() {
        match spec_fws_ccontent(s, i) {
            Ok(j) => {
                if i < j <= s.len() {
                    spec_comment_items(s, j)
                } else {
                    Err(MailError::Parse)
                }
            },
            Err(_) => Ok(i),
        }
    } else {
        Err(MailError::Parse)
    }
}

pub proof fn lemma_comment_bounds(s: Seq<u8>, i: int)
    requires
        0 <= i <= s.len(),
    ensures
        spec_comment(s, i) matches Ok(j) ==> i < j <= s.len(),
        spec_ccontent(s, i) matches Ok(j) ==> i < j <= s.len(),
        spec_fws_ccontent(s, i) matches Ok(j) ==> i < j <= s.len(),
        spec_comment_items(s, i) matches Ok(j) ==> i <= j <= s.len(),
    decreases s.len() - i,
{
    lemma_fws(s, i);
    if i < s.len() {
        lemma_comment_bounds(s, i + 1);
        lemma_fws(s, i + 1);
    }
    let k = spec_skip_fws(s, i);
    if k > i {
        lemma_comment_bounds(s, k);
    }
    if let Ok(j) = spec_fws_ccontent(s, i) {
        if i < j <= s.len() {
            lemma_comment_bounds(s, j);
        }
    }
    if at(s, i, 40) {
        if let Ok(j) = spec_comment_items(s, i + 1) {
            if i < j <= s.len() {
                lemma_fws(s, j);
            }
        }
    }
}

/// Reads a comment, nested comments included.
pub fn mailimf_comment_parse(message: &[u8], indx: usize) -> (r: Result<usize, MailError>)
    requires
        indx <= message@.len(),
    ensures
        pos_view(r) == spec_comment(message@, indx as int),
        r matches Ok(j) ==> indx < j <= message@.len(),
    decreases message@.len() - indx, 0int,
{
    proof {
        lemma_comment_bounds(message@, indx as int);
    }
    if mailimf_char_parse(message, indx, 40).is_err() {
        return Err(MailError::Parse);
    }
    let mut cur: usize = indx + 1;
    loop
        invariant
            indx < cur <= message@.len(),
            spec_comment_items(message@, (indx + 1) as int) == spec_comment_items(message@, cur as int),
        ensures
            indx < cur <= message@.len(),
            spec_comment_items(message@, (indx + 1) as int) == Ok::<int, MailError>(cur as int),
        decreases message@.len() - cur,
    {
        proof {
            lemma_comment_bounds(message@, cur as int);
            lemma_fws(message@, cur as int);
        }
        let k = skip_fws(message, cur);
        match mailimf_ccontent_parse(message, k) {
            Ok(j) => {
                cur = j;
            },
            Err(_) => {
                break;
            },
        }
    }
    proof {
        lemma_fws(message@, cur as int);
    }
    let k = skip_fws(message, cur);
    mailimf_char_parse(message, k, 41)
}

/// Reads one ccontent.
pub fn mailimf_ccontent_parse(message: &[u8], indx: usize) -> (r: Result<usize, MailError>)
    requires
        indx <= message@.len(),
    ensures
        pos_view(r) == spec_ccontent(message@, indx as int),
        r matches Ok(j) ==> indx < j <= message@.len(),
    decreases message@.len() - indx, 1int,
{
    proof {
        lemma_comment_bounds(message@, indx as int);
    }
    if indx >= message.len() {
        return Err(MailError::Parse);
    }
    if is_ctext(message[indx]) {
        return Ok(indx + 1);
    }
    match mailimf_quoted_pair_parse(message, indx) {
        Ok((_, j)) => Ok(j),
        Err(_) => mailimf_comment_parse(message, indx),
    }
}

/// [FWS] comment
pub open spec fn spec_fws_comment(s: Seq<u8>, i: int) -> Result<int, MailError> {
    spec_comment(s, spec_skip_fws(s, i))
}

/// The end of a run of `[FWS] comment`.
pub open spec fn spec_comments_end(s: Seq<u8>, i: int) -> int
    decreases s.len() - i,
{
    match spec_fws_comment(s, i) {
        Ok(j) => {
            if 0 <= i < j <= s.len() {
                spec_comments_end(s, j)
            } else {
                i
            }
        },
        Err(_) => i,
    }
}

/// CFWS: comments and folding white space; when no comment is there, FWS is needed.
pub open spec fn spec_cfws(s: Seq<u8>, i: int) -> Result<int, MailError> {
    let j = spec_comments_end(s, i);
    if j != i {
        Ok(j)
    } else {
        spec_fws(s, i)
    }
}

/// Where the cursor stands after optional CFWS.
pub open spec fn spec_skip_cfws(s: Seq<u8>, i: int) -> int {
    match spec_cfws(s, i) {
        Ok(j) => j,
        Err(_) => i,
    }
}

pub proof fn lemma_comments_end(s: Seq<u8>, i: int)
    requires
        0 <= i <= s.len(),
    ensures
        i <= spec_comments_end(s, i) <= s.len(),
    decreases s.len() - i,
{
    if let Ok(j) = spec_fws_comment(s, i) {
        if 0 <= i < j <= s.len() {
            lemma_comments_end(s, j);
        }
    }
}

pub proof fn lemma_cfws(s: Seq<u8>, i: int)
    requires
        0 <= i <= s.len(),
    ensures
        spec_cfws(s, i) matches Ok(j) ==> i < j <= s.len(),
        i <= spec_skip_cfws(s, i) <= s.len(),
{
    lemma_comments_end(s, i);
    lemma_fws(s, i);
}

pub fn mailimf_cfws_parse(message: &[u8], indx: usize) -> (r: Result<usize, MailError>)
    requires
        indx <= message@.len(),
    ensures
        pos_view(r) == spec_cfws(message@, indx as int),
        r matches Ok(j) ==> indx < j <= message@.len(),
{
    proof {
        lemma_cfws(message@, indx as int);
    }
    let mut cur: usize = indx;
    loop
        invariant
            indx <= cur <= message@.len(),
            spec_comments_end(message@, indx as int) == spec_comments_end(message@, cur as int),
        ensures
            indx <= cur <= message@.len(),
            spec_comments_end(message@, indx as int) == cur,
        decreases message@.len() - cur,
    {
        proof {
            lemma_fws(message@, cur as int);
        }
        let k = skip_fws(message, cur);
        match mailimf_comment_parse(message, k) {
            Ok(j) => {
                cur = j;
            },
            Err(_) => {
                break;
            },
        }
    }
    if cur != indx {
        Ok(cur)
    } else {
        mailimf_fws_parse(message, indx)
    }
}

/// Skips optional CFWS.
pub fn skip_cfws(message: &[u8], indx: usize) -> (j: usize)
    requires
        indx <= message@.len(),
    ensures
        j == spec_skip_cfws(message@, indx as int),
        indx <= j <= message@.len(),
{
    proof {
        lemma_cfws(message@, indx as int);
    }
    match mailimf_cfws_parse(message, indx) {
        Ok(j) => j,
        Err(_) => indx,
    }
}

/// A byte after optional CFWS.
pub open spec fn spec_unstrict_char(s: Seq<u8>, i: int, c: u8) -> Result<int, MailError> {
    spec_char(s, spec_skip_cfws(s, i), c)
}

pub fn mailimf_unstrict_char_parse(message: &[u8], indx: usize, token: u8) -> (r: Result<usize, MailError>)
    requires
        indx <= message@.len(),
    ensures
        pos_view(r) == spec_unstrict_char(message@, indx as int, token),
        r matches Ok(j) ==> indx < j <= message@.len(),
{
    let k = skip_cfws(message, indx);
    mailimf_char_parse(message, k, token)
}

/// CRLF after optional CFWS.
pub open spec fn spec_unstrict_crlf(s: Seq<u8>, i: int) -> Result<int, MailError> {
    spec_crlf(s, spec_skip_cfws(s, i))
}

pub fn mailimf_unstrict_crlf_parse(message: &[u8], indx: usize) -> (r: Result<usize, MailError>)
    requires
        indx <= message@.len(),
    ensures
        pos_view(r) == spec_unstrict_crlf(message@, indx as int),
        r matches Ok(j) ==> indx < j <= message@.len(),
{
    let k = skip_cfws(message, indx);
    mailimf_crlf_parse(message, k)
}

/// Two bytes that are equal but for the case of ASCII letters.
pub open spec fn spec_ci_eq(a: u8, b: u8) -> bool {
    spec_to_upper(a) == spec_to_upper(b)
}

/// The bytes of `s` from `i` on start with `t`, case aside.
pub open spec fn spec_ci_prefix(s: Seq<u8>, i: int, t: Seq<u8>) -> bool {
    &&& 0 <= i
    &&& i + t.len() <= s.len()
    &&& forall|k: int| 0 <= k < t.len() ==> #[trigger] spec_ci_eq(s[i + k], t[k])
}

pub open spec fn spec_token_ci(s: Seq<u8>, i: int, t: Seq<u8>) -> Result<int, MailError> {
    if t.len() == 0 {
        if i == 0 || i > s.len() {
            Err(MailError::Parse)
        } else {
            Ok(i)
        }
    } else if spec_ci_prefix(s, i, t) {
        Ok(i + t.len())
    } else {
        Err(MailError::Parse)
    }
}

/// Reads `token`, matching ASCII letters whatever their case.
pub fn mailimf_token_case_insensitive_len_parse(message: &[u8], indx: usize, token: &[u8]) -> (r: Result<usize, MailError>)
    ensures
        pos_view(r) == spec_token_ci(message@, indx as int, token@),
        r matches Ok(j) ==> indx <= j <= message@.len(),
{
    let n = token.len();
    if n == 0 {
        if indx == 0 || indx > message.len() {
            return Err(MailError::Parse);
        }
        return Ok(indx);
    }
    if indx > message.len() || n > message.len() - indx {
        return Err(MailError::Parse);
    }
    let mut k: usize = 0;
    let mlen = message.len();
    while k < n
        invariant
            mlen == message@.len(),
            n == token@.len(),
            indx + n <= message@.len(),
            0 <= k <= n,
            forall|m: int| 0 <= m < k ==> #[trigger] spec_ci_eq(message@[indx + m], token@[m]),
        decreases n - k,
    {
        if to_upper(message[indx + k]) != to_upper(token[k]) {
            assert(!spec_ci_eq(message@[indx + k], token@[k as int]));
            return Err(MailError::Parse);
        }
        k = k + 1;
    }
    Ok(indx + n)
}

/// The end of the run of digits that starts at `i`.
pub open spec fn spec_digits_end(s: Seq<u8>, i: int) -> int
    decreases s.len() - i,
{
    if 0 <= i < s.len() && spec_is_digit(s[i]) {
        spec_digits_end(s, i + 1)
    } else {
        i
    }
}

/// One decimal step of the number being read, in 32-bit wrapping arithmetic.
pub open spec fn spec_number_step(v: u32, c: u8) -> u32 {
    vstd::wrapping::u32_specs::wrapping_add(
        vstd::wrapping::u32_specs::wrapping_mul(v, 10),
        (c - 48) as u32,
    )
}

/// The value of the digits `s[i..j]`.
pub open spec fn spec_digits_value(s: Seq<u8>, i: int, j: int) -> u32
    decreases j - i,
{
    if j <= i {
        0
    } else {
        spec_number_step(spec_digits_value(s, i, j - 1), s[j - 1])
    }
}

pub proof fn lemma_digits_end(s: Seq<u8>, i: int)
    requires
        0 <= i,
    ensures
        i <= spec_digits_end(s, i),
        i <= s.len() ==> spec_digits_end(s, i) <= s.len(),
        forall|k: int| i <= k < spec_digits_end(s, i) ==> #[trigger] spec_is_digit(s[k]),
    decreases s.len() - i,
{
    if 0 <= i < s.len() && spec_is_digit(s[i]) {
        lemma_digits_end(s, i + 1);
    }
}

/// number: one or more decimal digits.
pub open spec fn spec_number(s: Seq<u8>, i: int) -> Result<(u32, int), MailError> {
    let j = spec_digits_end(s, i);
    if j > i {
        Ok((spec_digits_value(s, i, j), j))
    } else {
        Err(MailError::Parse)
    }
}

pub fn mailimf_number_parse(message: &[u8], indx: usize) -> (r: Result<(u32, usize), MailError>)
    requires
        indx <= message@.len(),
    ensures
        res_view(r) == spec_number(message@, indx as int),
        r matches Ok((_, j)) ==> indx < j <= message@.len(),
{
    proof {
        lemma_digits_end(message@, indx as int);
    }
    let mut cur: usize = indx;
    let mut number: u32 = 0;
    while cur < message.len() && is_digit(message[cur])
        invariant
            indx <= cur <= message@.len(),
            spec_digits_end(message@, indx as int) == spec_digits_end(message@, cur as int),
            number == spec_digits_value(message@, indx as int, cur as int),
        decreases message@.len() - cur,
    {
        let d: u8 = message[cur] - 48;
        number = number.wrapping_mul(10).wrapping_add(d as u32);
        cur = cur + 1;
    }
    if cur == indx {
        return Err(MailError::Parse);
    }
    Ok((number, cur))
}

pub open spec fn spec_digit(s: Seq<u8>, i: int) -> Result<(u8, int), MailError> {
    if 0 <= i < s.len() && spec_is_digit(s[i]) {
        Ok(((s[i] - 48) as u8, i + 1))
    } else {
        Err(MailError::Parse)
    }
}

pub fn mailimf_digit_parse(message: &[u8], indx: usize) -> (r: Result<(u8, usize), MailError>)
    ensures
        res_view(r) == spec_digit(message@, indx as int),
{
    if indx >= message.len() {
        return Err(MailError::Parse);
    }
    if is_digit(message[indx]) {
        Ok((message[indx] - 48, indx + 1))
    } else {
        Err(MailError::Parse)
    }
}

/// The end of the run of bytes of class `k` that starts at `i`.
pub open spec fn spec_span_end(s: Seq<u8>, i: int, k: CharClass) -> int
    decreases s.len() - i,
{
    if 0 <= i < s.len() && spec_class_has(k, s[i]) {
        spec_span_end(s, i + 1, k)
    } else {
        i
    }
}

pub proof fn lemma_span_end(s: Seq<u8>, i: int, k: CharClass)
    requires
        0 <= i,
    ensures
        i <= spec_span_end(s, i, k),
        i <= s.len() ==> spec_span_end(s, i, k) <= s.len(),
        forall|m: int| i <= m < spec_span_end(s, i, k) ==> #[trigger] spec_class_has(k, s[m]),
        spec_span_end(s, i, k) < s.len() ==> !spec_class_has(k, s[spec_span_end(s, i, k)]),
    decreases s.len() - i,
{
    if 0 <= i < s.len() && spec_class_has(k, s[i]) {
        lemma_span_end(s, i + 1, k);
    }
}

/// A non-empty run of bytes of one class.
pub open spec fn spec_custom_string(s: Seq<u8>, i: int, k: CharClass) -> Result<(Seq<u8>, int), MailError> {
    let j = spec_span_end(s, i, k);
    if j > i {
        Ok((s.subrange(i, j), j))
    } else {
        Err(MailError::Parse)
    }
}

pub fn span_end(message: &[u8], indx: usize, k: CharClass) -> (e: usize)
    requires
        indx <= message@.len(),
    ensures
        e == spec_span_end(message@, indx as int, k),
        indx <= e <= message@.len(),
{
    proof {
        lemma_span_end(message@, indx as int, k);
    }
    let mut cur: usize = indx;
    while cur < message.len() && class_has(k, message[cur])
        invariant
            indx <= cur <= message@.len(),
            spec_span_end(message@, indx as int, k) == spec_span_end(message@, cur as int, k),
        decreases message@.len() - cur,
    {
        cur = cur + 1;
    }
    cur
}

/// A copy of `message[b..e]`.
pub fn copy_range(message: &[u8], b: usize, e: usize) -> (v: Vec<u8>)
    requires
        b <= e <= message@.len(),
    ensures
        v@ == message@.subrange(b as int, e as int),
{
    let sub = vstd::slice::slice_subrange(message, b, e);
    vstd::slice::slice_to_vec(sub)
}

/// Reads a non-empty run of bytes of class `k`.
pub fn mailimf_custom_string_parse(message: &[u8], indx: usize, k: CharClass) -> (r: Result<(Vec<u8>, usize), MailError>)
    requires
        indx <= message@.len(),
    ensures
        res_view(r) == spec_custom_string(message@, indx as int, k),
        r matches Ok((_, j)) ==> indx < j <= message@.len(),
{
    let e = span_end(message, indx, k);
    if e == indx {
        return Err(MailError::Parse);
    }
    Ok((copy_range(message, indx, e), e))
}

/// A byte of `s` under a case-blind prefix `t` is `t`'s byte, case aside.
pub proof fn lemma_ci_prefix_byte(s: Seq<u8>, i: int, t: Seq<u8>, m: int)
    requires
        spec_ci_prefix(s, i, t),
        0 <= m < t.len(),
    ensures
        spec_to_upper(s[i + m]) == spec_to_upper(t[m]),
{
    assert(spec_ci_eq(s[i + m], t[m]));
}

} // verus!
