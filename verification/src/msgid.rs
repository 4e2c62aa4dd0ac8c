//! Message identifiers (`<id@host>`) and lists of them.

use vstd::prelude::*;
use crate::MailError;
use crate::res_view;
use crate::lex::{spec_skip_cfws, spec_unstrict_char, skip_cfws, lemma_cfws,
    mailimf_unstrict_char_parse};
use crate::words::{spec_word, mailimf_word_parse};
use crate::address::{AddrEnd, spec_addr_spec_k, mailimf_addr_spec_msg_id_parse};

verus! {

/// msg-id: an id between angle brackets (each may be doubled), or an id
/// without them, after optional CFWS.
pub open spec fn spec_msg_id(s: Seq<u8>, i: int) -> Result<(Seq<u8>, int), MailError> {
    let k = spec_skip_cfws(s, i);
    match spec_unstrict_char(s, k, 60) {
        Err(_) => spec_addr_spec_k(s, k, AddrEnd::MsgId),
        Ok(j) => {
            let j2 = match spec_unstrict_char(s, j, 60) {
                Ok(j2) => j2,
                Err(_) => j,
            };
            match spec_addr_spec_k(s, j2, AddrEnd::MsgId) {
                Err(x) => Err(x),
                Ok((id, e)) => match spec_unstrict_char(s, e, 62) {
                    Err(x) => Err(x),
                    Ok(g) => match spec_unstrict_char(s, g, 62) {
                        Ok(g2) => Ok((id, g2)),
                        Err(_) => Ok((id, g)),
                    },
                },
            }
        },
    }
}

pub fn mailimf_msg_id_parse(message: &[u8], indx: usize) -> (r: Result<(Vec<u8>, usize), MailError>)
    requires
        indx <= message@.len(),
    ensures
        res_view(r) == spec_msg_id(message@, indx as int),
        r matches Ok((_, j)) ==> indx < j <= message@.len(),
{
    let k = skip_cfws(message, indx);
    match mailimf_unstrict_char_parse(message, k, 60) {
        Err(_) => mailimf_addr_spec_msg_id_parse(message, k),
        Ok(j) => {
            let j2 = match mailimf_unstrict_char_parse(message, j, 60) {
                Ok(j2) => j2,
                Err(_) => j,
            };
            let (id, e) = mailimf_addr_spec_msg_id_parse(message, j2)?;
            let g = mailimf_unstrict_char_parse(message, e, 62)?;
            match mailimf_unstrict_char_parse(message, g, 62) {
                Ok(g2) => Ok((id, g2)),
                Err(_) => Ok((id, g)),
            }
        },
    }
}

/// One round of skipping what may litter a list of message ids: a word, then
/// `;`, `,`, `+`, `:`, `.` and `@`, each read when it is there.
pub open spec fn spec_unwanted_round(s: Seq<u8>, p: int) -> int {
    let a = match spec_word(s, p) { Ok((_, j)) => j, Err(_) => p };
    let b = match spec_unstrict_char(s, a, 59) { Ok(j) => j, Err(_) => a };
    let c = match spec_unstrict_char(s, b, 44) { Ok(j) => j, Err(_) => b };
    let d = match spec_unstrict_char(s, c, 43) { Ok(j) => j, Err(_) => c };
    let e = match spec_unstrict_char(s, d, 58) { Ok(j) => j, Err(_) => d };
    let f = match spec_unstrict_char(s, e, 46) { Ok(j) => j, Err(_) => e };
    match spec_unstrict_char(s, f, 64) { Ok(j) => j, Err(_) => f }
}

/// Skips rounds until one reads nothing.
pub open spec fn spec_unwanted_msg_id(s: Seq<u8>, p: int) -> int
    decreases s.len() - p,
{
    let q = spec_unwanted_round(s, p);
    if 0 <= p < q <= s.len() {
        spec_unwanted_msg_id(s, q)
    } else {
        p
    }
}

fn opt_char(message: &[u8], p: usize, c: u8) -> (q: usize)
    requires
        p <= message@.len(),
    ensures
        q == (match spec_unstrict_char(message@, p as int, c) { Ok(j) => j, Err(_) => p as int }),
        p <= q <= message@.len(),
{
    match mailimf_unstrict_char_parse(message, p, c) {
        Ok(j) => j,
        Err(_) => p,
    }
}

fn unwanted_round(message: &[u8], p: usize) -> (q: usize)
    requires
        p <= message@.len(),
    ensures
        q == spec_unwanted_round(message@, p as int),
        p <= q <= message@.len(),
{
    let a = match mailimf_word_parse(message, p) {
        Ok((_, j)) => j,
        Err(_) => p,
    };
    let b = opt_char(message, a, 59);
    let c = opt_char(message, b, 44);
    let d = opt_char(message, c, 43);
    let e = opt_char(message, d, 58);
    let f = opt_char(message, e, 46);
    opt_char(message, f, 64)
}

/// Skips words and punctuation that some mailers put around message ids.
pub fn mailimf_parse_unwanted_msg_id(message: &[u8], indx: usize) -> (q: usize)
    requires
        indx <= message@.len(),
    ensures
        q == spec_unwanted_msg_id(message@, indx as int),
        indx <= q <= message@.len(),
{
    let mut cur: usize = indx;
    loop
        invariant
            indx <= cur <= message@.len(),
            spec_unwanted_msg_id(message@, indx as int) == spec_unwanted_msg_id(message@, cur as int),
        decreases message@.len() - cur,
    {
        let q = unwanted_round(message, cur);
        if q == cur {
            return cur;
        }
        cur = q;
    }
}

/// A message id with what may litter it around.
pub open spec fn spec_unstrict_msg_id(s: Seq<u8>, i: int) -> Result<(Seq<u8>, int), MailError> {
    let a = spec_unwanted_msg_id(s, spec_skip_cfws(s, i));
    match spec_msg_id(s, a) {
        Err(x) => Err(x),
        Ok((id, e)) => Ok((id, spec_unwanted_msg_id(s, e))),
    }
}

proof fn lemma_unwanted(s: Seq<u8>, p: int)
    requires
        0 <= p <= s.len(),
    ensures
        p <= spec_unwanted_msg_id(s, p) <= s.len(),
    decreases s.len() - p,
{
    let q = spec_unwanted_round(s, p);
    if 0 <= p < q <= s.len() {
        lemma_unwanted(s, q);
    }
}

pub fn mailimf_unstrict_msg_id_parse(message: &[u8], indx: usize) -> (r: Result<(Vec<u8>, usize), MailError>)
    requires
        indx <= message@.len(),
    ensures
        res_view(r) == spec_unstrict_msg_id(message@, indx as int),
        r matches Ok((_, j)) ==> indx < j <= message@.len(),
{
    let k = skip_cfws(message, indx);
    let a = mailimf_parse_unwanted_msg_id(message, k);
    let (id, e) = mailimf_msg_id_parse(message, a)?;
    let f = mailimf_parse_unwanted_msg_id(message, e);
    Ok((id, f))
}

pub open spec fn bytes_list_view(v: Seq<Vec<u8>>) -> Seq<Seq<u8>> {
    v.map_values(|x: Vec<u8>| x@)
}

/// Message ids, one after another, from `p` on, added to `acc`.
pub open spec fn spec_msg_id_list_rest(s: Seq<u8>, p: int, acc: Seq<Seq<u8>>) -> Result<(Seq<Seq<u8>>, int), MailError>
    decreases s.len() - p,
{
    match spec_unstrict_msg_id(s, p) {
        Ok((id, e)) => if 0 <= p < e <= s.len() {
            spec_msg_id_list_rest(s, e, acc.push(id))
        } else {
            Err(MailError::Parse)
        },
        Err(MailError::Parse) => Ok((acc, p)),
        Err(x) => Err(x),
    }
}

/// One or more message ids.
pub open spec fn spec_msg_id_list(s: Seq<u8>, i: int) -> Result<(Seq<Seq<u8>>, int), MailError> {
    match spec_unstrict_msg_id(s, i) {
        Err(x) => Err(x),
        Ok((id, j)) => spec_msg_id_list_rest(s, j, seq![id]),
    }
}

pub fn mailimf_msg_id_list_parse(message: &[u8], indx: usize) -> (r: Result<(Vec<Vec<u8>>, usize), MailError>)
    requires
        indx <= message@.len(),
    ensures
        match r {
            Ok((l, j)) => spec_msg_id_list(message@, indx as int) == Ok::<(Seq<Seq<u8>>, int), MailError>((bytes_list_view(l@), j as int)),
            Err(x) => spec_msg_id_list(message@, indx as int) == Err::<(Seq<Seq<u8>>, int), MailError>(x),
        },
        r matches Ok((_, j)) ==> indx < j <= message@.len(),
{
    let (id, j) = mailimf_unstrict_msg_id_parse(message, indx)?;
    let ghost whole = spec_msg_id_list_rest(message@, j as int, seq![id@]);
    let mut list: Vec<Vec<u8>> = Vec::new();
    list.push(id);
    assert(bytes_list_view(list@) =~= seq![list@[0]@]);
    let mut cur: usize = j;
    loop
        invariant
            indx < cur <= message@.len(),
            whole == spec_msg_id_list(message@, indx as int),
            whole == spec_msg_id_list_rest(message@, cur as int, bytes_list_view(list@)),
        decreases message@.len() - cur,
    {
        match mailimf_unstrict_msg_id_parse(message, cur) {
            Ok((id, e)) => {
                let ghost l0 = list@;
                let ghost idv = id@;
                list.push(id);
                assert(bytes_list_view(list@) =~= bytes_list_view(l0).push(idv));
                cur = e;
            },
            Err(MailError::Parse) => {
                return Ok((list, cur));
            },
            Err(x) => {
                return Err(x);
            },
        }
    }
}

/// A message id never holds `>`, CR, LF, space or tab: it ends at the
/// closing `>` or the end of the line.
pub proof fn law_msg_id_clean(s: Seq<u8>, i: int)
    ensures
        spec_msg_id(s, i) matches Ok((id, _)) ==> crate::address::msg_id_clean(id),
{
    let k = spec_skip_cfws(s, i);
    crate::address::lemma_addr_spec_msg_id_clean(s, k);
    if let Ok(j) = spec_unstrict_char(s, k, 60) {
        crate::address::lemma_addr_spec_msg_id_clean(s, j);
        if let Ok(j2) = spec_unstrict_char(s, j, 60) {
            crate::address::lemma_addr_spec_msg_id_clean(s, j2);
        }
    }
}

} // verus!
