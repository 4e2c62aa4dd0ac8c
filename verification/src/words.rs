//! Atoms, quoted strings, words and phrases of RFC 2822, and unstructured
//! header text.

use vstd::prelude::*;
use crate::MailError;
use crate::res_view;
use crate::lex::{at, spec_char, spec_fws, spec_skip_fws, spec_skip_cfws, spec_quoted_pair,
    spec_custom_string, spec_wsp_end, mailimf_char_parse, mailimf_fws_parse, skip_fws, skip_cfws,
    lemma_fws, lemma_cfws, lemma_wsp_end, mailimf_quoted_pair_parse, mailimf_custom_string_parse,
    copy_range};
use crate::chars::{CharClass, spec_is_qtext, spec_is_wsp, is_qtext, is_wsp};
use crate::encoded_word::{spec_encoded_word, mailmime_encoded_word_parse};

verus! {

/// qcontent: qtext or a quoted pair; gives the byte it stands for.
pub open spec fn spec_qcontent(s: Seq<u8>, i: int) -> Result<(u8, int), MailError> {
    if 0 <= i < s.len() {
        if spec_is_qtext(s[i]) {
            Ok((s[i], i + 1))
        } else {
            spec_quoted_pair(s, i)
        }
    } else {
        Err(MailError::Parse)
    }
}

pub fn mailimf_qcontent_parse(message: &[u8], indx: usize) -> (r: Result<(u8, usize), MailError>)
    ensures
        res_view(r) == spec_qcontent(message@, indx as int),
{
    if indx >= message.len() {
        return Err(MailError::Parse);
    }
    if is_qtext(message[indx]) {
        Ok((message[indx], indx + 1))
    } else {
        mailimf_quoted_pair_parse(message, indx)
    }
}

/// The content of a quoted string from `p`: each FWS becomes one space.
pub open spec fn spec_qs_items(s: Seq<u8>, p: int) -> (Seq<u8>, int)
    decreases s.len() - p,
{
    let (sp, q) = match spec_fws(s, p) {
        Ok(j) => (seq![32u8], j),
        Err(_) => (Seq::<u8>::empty(), p),
    };
    match spec_qcontent(s, q) {
        Ok((c, j)) => if 0 <= p < j <= s.len() {
            let rest = spec_qs_items(s, j);
            (sp + seq![c] + rest.0, rest.1)
        } else {
            (sp, q)
        },
        Err(_) => (sp, q),
    }
}

proof fn lemma_qs_items(s: Seq<u8>, p: int)
    requires
        0 <= p <= s.len(),
    ensures
        p <= spec_qs_items(s, p).1 <= s.len(),
    decreases s.len() - p,
{
    lemma_fws(s, p);
    let q = spec_skip_fws(s, p);
    if let Ok((c, j)) = spec_qcontent(s, q) {
        if 0 <= p < j <= s.len() {
            lemma_qs_items(s, j);
        }
    }
}

/// A quoted string whose opening quote starts at `k`; gives its content.
pub open spec fn spec_quoted_body(s: Seq<u8>, k: int) -> Result<(Seq<u8>, int), MailError> {
    match spec_char(s, k, 34) {
        Ok(k1) => {
            let (txt, p) = spec_qs_items(s, k1);
            match spec_char(s, p, 34) {
                Ok(e) => Ok((txt, e)),
                Err(x) => Err(x),
            }
        },
        Err(x) => Err(x),
    }
}

/// quoted-string, after optional CFWS.
pub open spec fn spec_quoted_string(s: Seq<u8>, i: int) -> Result<(Seq<u8>, int), MailError> {
    spec_quoted_body(s, spec_skip_cfws(s, i))
}

/// quoted-string, after optional FWS.
pub open spec fn spec_fws_quoted_string(s: Seq<u8>, i: int) -> Result<(Seq<u8>, int), MailError> {
    spec_quoted_body(s, spec_skip_fws(s, i))
}

fn quoted_body(message: &[u8], k: usize) -> (r: Result<(Vec<u8>, usize), MailError>)
    requires
        k <= message@.len(),
    ensures
        res_view(r) == spec_quoted_body(message@, k as int),
        r matches Ok((_, j)) ==> k < j <= message@.len(),
{
    let k1 = mailimf_char_parse(message, k, 34)?;
    let ghost whole = spec_qs_items(message@, k1 as int);
    proof {
        lemma_qs_items(message@, k1 as int);
    }
    let mut txt: Vec<u8> = Vec::new();
    let mut cur: usize = k1;
    loop
        invariant_except_break
            k1 <= cur <= message@.len(),
            whole == spec_qs_items(message@, k1 as int),
            ({
                let rest = spec_qs_items(message@, cur as int);
                whole == (txt@ + rest.0, rest.1)
            }),
        ensures
            k1 <= cur <= message@.len(),
            whole == (txt@, cur as int),
        decreases message@.len() - cur,
    {
        proof {
            lemma_fws(message@, cur as int);
        }
        let ghost txt0 = txt@;
        let ghost rest0 = spec_qs_items(message@, cur as int);
        let q = match mailimf_fws_parse(message, cur) {
            Ok(j) => {
                txt.push(32);
                j
            },
            Err(_) => cur,
        };
        let ghost sp: Seq<u8> = if spec_fws(message@, cur as int) is Ok { seq![32u8] } else { Seq::empty() };
        assert(txt@ =~= txt0 + sp);
        match mailimf_qcontent_parse(message, q) {
            Ok((c, j)) => {
                txt.push(c);
                proof {
                    let rest1 = spec_qs_items(message@, j as int);
                    assert(txt0 + rest0.0 =~= txt@ + rest1.0);
                }
                cur = j;
            },
            Err(_) => {
                cur = q;
                break;
            },
        }
    }
    let e = mailimf_char_parse(message, cur, 34)?;
    Ok((txt, e))
}

/// Reads a quoted string after optional CFWS; gives its content without the quotes.
pub fn mailimf_quoted_string_parse(message: &[u8], indx: usize) -> (r: Result<(Vec<u8>, usize), MailError>)
    requires
        indx <= message@.len(),
    ensures
        res_view(r) == spec_quoted_string(message@, indx as int),
        r matches Ok((_, j)) ==> indx < j <= message@.len(),
{
    let k = skip_cfws(message, indx);
    quoted_body(message, k)
}

/// Reads a quoted string after optional FWS; gives its content without the quotes.
pub fn mailimf_fws_quoted_string_parse(message: &[u8], indx: usize) -> (r: Result<(Vec<u8>, usize), MailError>)
    requires
        indx <= message@.len(),
    ensures
        res_view(r) == spec_fws_quoted_string(message@, indx as int),
        r matches Ok((_, j)) ==> indx < j <= message@.len(),
{
    let k = skip_fws(message, indx);
    quoted_body(message, k)
}

/// atom, after optional CFWS.
pub open spec fn spec_atom(s: Seq<u8>, i: int) -> Result<(Seq<u8>, int), MailError> {
    spec_custom_string(s, spec_skip_cfws(s, i), CharClass::Atext)
}

/// atom, after optional FWS.
pub open spec fn spec_fws_atom(s: Seq<u8>, i: int) -> Result<(Seq<u8>, int), MailError> {
    spec_custom_string(s, spec_skip_fws(s, i), CharClass::Atext)
}

pub fn mailimf_atom_parse(message: &[u8], indx: usize) -> (r: Result<(Vec<u8>, usize), MailError>)
    requires
        indx <= message@.len(),
    ensures
        res_view(r) == spec_atom(message@, indx as int),
        r matches Ok((_, j)) ==> indx < j <= message@.len(),
{
    let k = skip_cfws(message, indx);
    mailimf_custom_string_parse(message, k, CharClass::Atext)
}

pub fn mailimf_fws_atom_parse(message: &[u8], indx: usize) -> (r: Result<(Vec<u8>, usize), MailError>)
    requires
        indx <= message@.len(),
    ensures
        res_view(r) == spec_fws_atom(message@, indx as int),
        r matches Ok((_, j)) ==> indx < j <= message@.len(),
{
    let k = skip_fws(message, indx);
    mailimf_custom_string_parse(message, k, CharClass::Atext)
}

/// word: an atom or a quoted string, after optional CFWS.
pub open spec fn spec_word(s: Seq<u8>, i: int) -> Result<(Seq<u8>, int), MailError> {
    match spec_atom(s, i) {
        Err(MailError::Parse) => spec_quoted_string(s, i),
        other => other,
    }
}

pub fn mailimf_word_parse(message: &[u8], indx: usize) -> (r: Result<(Vec<u8>, usize), MailError>)
    requires
        indx <= message@.len(),
    ensures
        res_view(r) == spec_word(message@, indx as int),
        r matches Ok((_, j)) ==> indx < j <= message@.len(),
{
    match mailimf_atom_parse(message, indx) {
        Err(MailError::Parse) => mailimf_quoted_string_parse(message, indx),
        other => other,
    }
}

/// An atom of a phrase: an encoded word, taken as it is written, or else a
/// plain atom. Gives also whether an encoded word opened a quote it did not close.
pub open spec fn spec_fws_atom_for_word(s: Seq<u8>, i: int) -> Result<((Seq<u8>, bool), int), MailError> {
    let k = spec_skip_fws(s, i);
    match spec_encoded_word(s, k) {
        Ok(((_, _, missing), c)) => Ok(((s.subrange(k, c), missing), c)),
        Err(MailError::Parse) => match spec_fws_atom(s, i) {
            Ok((a, j)) => Ok(((a, false), j)),
            Err(x) => Err(x),
        },
        Err(x) => Err(x),
    }
}

pub fn mailimf_fws_atom_for_word_parse(message: &[u8], indx: usize) -> (r: Result<((Vec<u8>, bool), usize), MailError>)
    requires
        indx <= message@.len(),
    ensures
        res_view(r) == spec_fws_atom_for_word(message@, indx as int),
        r matches Ok((_, j)) ==> indx < j <= message@.len(),
{
    proof {
        lemma_fws(message@, indx as int);
    }
    let k = skip_fws(message, indx);
    match mailmime_encoded_word_parse(message, k) {
        Ok(((_, _, missing), c)) => Ok(((copy_range(message, k, c), missing), c)),
        Err(MailError::Parse) => {
            let (a, j) = mailimf_fws_atom_parse(message, indx)?;
            Ok(((a, false), j))
        },
        Err(x) => Err(x),
    }
}

/// A word of a phrase, after optional FWS.
pub open spec fn spec_fws_word(s: Seq<u8>, i: int) -> Result<((Seq<u8>, bool), int), MailError> {
    match spec_fws_atom_for_word(s, i) {
        Err(MailError::Parse) => match spec_fws_quoted_string(s, i) {
            Ok((w, j)) => Ok(((w, false), j)),
            Err(x) => Err(x),
        },
        other => other,
    }
}

pub fn mailimf_fws_word_parse(message: &[u8], indx: usize) -> (r: Result<((Vec<u8>, bool), usize), MailError>)
    requires
        indx <= message@.len(),
    ensures
        res_view(r) == spec_fws_word(message@, indx as int),
        r matches Ok((_, j)) ==> indx < j <= message@.len(),
{
    match mailimf_fws_atom_for_word_parse(message, indx) {
        Err(MailError::Parse) => {
            let (w, j) = mailimf_fws_quoted_string_parse(message, indx)?;
            Ok(((w, false), j))
        },
        other => other,
    }
}

/// The words of a phrase from `p`, joined by single spaces onto `acc`. Gives
/// the text, the final position, whether no word was read, and whether a
/// closing quote went missing.
pub open spec fn spec_phrase_words(s: Seq<u8>, p: int, acc: Seq<u8>, first: bool, missing: bool) -> Result<(Seq<u8>, int, bool, bool), MailError>
    decreases s.len() - p,
{
    match spec_fws_word(s, p) {
        Ok(((w, mq), j)) => if 0 <= p < j <= s.len() {
            let sep = if first { Seq::<u8>::empty() } else { seq![32u8] };
            spec_phrase_words(s, j, acc + sep + w, false, missing || mq)
        } else {
            Err(MailError::Parse)
        },
        Err(MailError::Parse) => Ok((acc, p, first, missing)),
        Err(x) => Err(x),
    }
}

/// phrase: one or more words, joined by single spaces.
pub open spec fn spec_phrase(s: Seq<u8>, i: int) -> Result<(Seq<u8>, int), MailError> {
    match spec_phrase_words(s, i, Seq::empty(), true, false) {
        Ok((acc, p, first, missing)) => if first {
            Err(MailError::Parse)
        } else {
            let p2 = if missing && at(s, p, 34) { p + 1 } else { p };
            Ok((acc, p2))
        },
        Err(x) => Err(x),
    }
}

pub fn mailimf_phrase_parse(message: &[u8], indx: usize) -> (r: Result<(Vec<u8>, usize), MailError>)
    requires
        indx <= message@.len(),
    ensures
        res_view(r) == spec_phrase(message@, indx as int),
        r matches Ok((_, j)) ==> indx < j <= message@.len(),
{
    let ghost whole = spec_phrase_words(message@, indx as int, Seq::empty(), true, false);
    let mut acc: Vec<u8> = Vec::new();
    let mut cur: usize = indx;
    let mut first = true;
    let mut missing = false;
    loop
        invariant_except_break
            indx <= cur <= message@.len(),
            first ==> cur == indx,
            !first ==> cur > indx,
            whole == spec_phrase_words(message@, indx as int, Seq::empty(), true, false),
            whole == spec_phrase_words(message@, cur as int, acc@, first, missing),
        ensures
            indx <= cur <= message@.len(),
            first ==> cur == indx,
            !first ==> cur > indx,
            whole == Ok::<(Seq<u8>, int, bool, bool), MailError>((acc@, cur as int, first, missing)),
        decreases message@.len() - cur,
    {
        let ghost acc0 = acc@;
        match mailimf_fws_word_parse(message, cur) {
            Ok(((w, mq), j)) => {
                if !first {
                    acc.push(32);
                }
                let ghost sep: Seq<u8> = if first { Seq::empty() } else { seq![32u8] };
                assert(acc@ =~= acc0 + sep);
                let mut w = w;
                acc.append(&mut w);
                first = false;
                missing = missing || mq;
                cur = j;
            },
            Err(MailError::Parse) => {
                break;
            },
            Err(x) => {
                return Err(x);
            },
        }
    }
    if first {
        return Err(MailError::Parse);
    }
    if missing {
        if let Ok(j) = mailimf_char_parse(message, cur, 34) {
            cur = j;
        }
    }
    Ok((acc, cur))
}

/// display-name: a phrase.
pub fn mailimf_display_name_parse(message: &[u8], indx: usize) -> (r: Result<(Vec<u8>, usize), MailError>)
    requires
        indx <= message@.len(),
    ensures
        res_view(r) == spec_phrase(message@, indx as int),
        r matches Ok((_, j)) ==> indx < j <= message@.len(),
{
    mailimf_phrase_parse(message, indx)
}

/// The states of the scanner of unstructured header text.
#[derive(PartialEq, Eq, Structural, Clone, Copy, Debug)]
pub enum UnstructuredState {
    Start,
    Cr,
    Lf,
    Wsp,
}

/// Scans unstructured text from `p` in state `st`; `terminal` is the position of
/// the last byte read in the start state. The text ends at a line break that is
/// not followed by white space; gives the terminal position then.
pub open spec fn spec_unstructured_scan(s: Seq<u8>, p: int, st: UnstructuredState, terminal: int) -> Result<int, MailError>
    decreases s.len() - p,
{
    if p < 0 {
        Err(MailError::Parse)
    } else if p >= s.len() {
        if st == UnstructuredState::Lf {
            Ok(terminal)
        } else {
            Err(MailError::Parse)
        }
    } else {
        let c = s[p];
        match st {
            UnstructuredState::Start => {
                let n = if c == 13 { UnstructuredState::Cr } else if c == 10 { UnstructuredState::Lf } else { UnstructuredState::Start };
                spec_unstructured_scan(s, p + 1, n, p)
            },
            UnstructuredState::Cr => {
                let n = if c == 10 { UnstructuredState::Lf } else { UnstructuredState::Start };
                spec_unstructured_scan(s, p + 1, n, terminal)
            },
            UnstructuredState::Lf => {
                if c == 9 || c == 32 {
                    spec_unstructured_scan(s, p + 1, UnstructuredState::Wsp, terminal)
                } else {
                    Ok(terminal)
                }
            },
            UnstructuredState::Wsp => {
                let n = if c == 13 { UnstructuredState::Cr } else if c == 10 { UnstructuredState::Lf } else { UnstructuredState::Start };
                spec_unstructured_scan(s, p + 1, n, terminal)
            },
        }
    }
}

proof fn lemma_unstructured_scan(s: Seq<u8>, p: int, st: UnstructuredState, terminal: int)
    requires
        0 <= terminal <= p,
    ensures
        spec_unstructured_scan(s, p, st, terminal) matches Ok(t) ==> terminal <= t && (t < s.len() || t == terminal),
    decreases s.len() - p,
{
    if 0 <= p < s.len() {
        let c = s[p];
        match st {
            UnstructuredState::Start => {
                let n = if c == 13 { UnstructuredState::Cr } else if c == 10 { UnstructuredState::Lf } else { UnstructuredState::Start };
                lemma_unstructured_scan(s, p + 1, n, p);
            },
            UnstructuredState::Cr => {
                let n = if c == 10 { UnstructuredState::Lf } else { UnstructuredState::Start };
                lemma_unstructured_scan(s, p + 1, n, terminal);
            },
            UnstructuredState::Lf => {
                if c == 9 || c == 32 {
                    lemma_unstructured_scan(s, p + 1, UnstructuredState::Wsp, terminal);
                }
            },
            UnstructuredState::Wsp => {
                let n = if c == 13 { UnstructuredState::Cr } else if c == 10 { UnstructuredState::Lf } else { UnstructuredState::Start };
                lemma_unstructured_scan(s, p + 1, n, terminal);
            },
        }
    }
}

fn unstructured_scan(message: &[u8], begin: usize) -> (r: Result<usize, MailError>)
    requires
        begin <= message@.len(),
    ensures
        crate::pos_view(r) == spec_unstructured_scan(message@, begin as int, UnstructuredState::Start, begin as int),
        r matches Ok(t) ==> begin <= t <= message@.len(),
{
    proof {
        lemma_unstructured_scan(message@, begin as int, UnstructuredState::Start, begin as int);
    }
    let ghost whole = spec_unstructured_scan(message@, begin as int, UnstructuredState::Start, begin as int);
    let mut cur: usize = begin;
    let mut terminal: usize = begin;
    let mut st = UnstructuredState::Start;
    while cur < message.len()
        invariant
            begin <= terminal <= cur <= message@.len(),
            terminal < message@.len() || terminal == begin,
            whole == spec_unstructured_scan(message@, begin as int, UnstructuredState::Start, begin as int),
            whole == spec_unstructured_scan(message@, cur as int, st, terminal as int),
        decreases message@.len() - cur,
    {
        let c = message[cur];
        match st {
            UnstructuredState::Start => {
                terminal = cur;
                st = if c == 13 { UnstructuredState::Cr } else if c == 10 { UnstructuredState::Lf } else { UnstructuredState::Start };
            },
            UnstructuredState::Cr => {
                st = if c == 10 { UnstructuredState::Lf } else { UnstructuredState::Start };
            },
            UnstructuredState::Lf => {
                if c == 9 || c == 32 {
                    st = UnstructuredState::Wsp;
                } else {
                    return Ok(terminal);
                }
            },
            UnstructuredState::Wsp => {
                st = if c == 13 { UnstructuredState::Cr } else if c == 10 { UnstructuredState::Lf } else { UnstructuredState::Start };
            },
        }
        cur = cur + 1;
    }
    if st == UnstructuredState::Lf {
        Ok(terminal)
    } else {
        Err(MailError::Parse)
    }
}

/// unstructured: the text of a header field up to its final line break, after
/// leading white space; folded lines are kept as they are.
pub open spec fn spec_unstructured(s: Seq<u8>, i: int) -> Result<(Seq<u8>, int), MailError> {
    let b = spec_wsp_end(s, i);
    match spec_unstructured_scan(s, b, UnstructuredState::Start, b) {
        Ok(t) => Ok((s.subrange(b, t), t)),
        Err(x) => Err(x),
    }
}

pub fn mailimf_unstructured_parse(message: &[u8], indx: usize) -> (r: Result<(Vec<u8>, usize), MailError>)
    requires
        indx <= message@.len(),
    ensures
        res_view(r) == spec_unstructured(message@, indx as int),
        r matches Ok((_, j)) ==> indx <= j <= message@.len(),
{
    proof {
        lemma_wsp_end(message@, indx as int);
    }
    let mut b: usize = indx;
    while b < message.len() && is_wsp(message[b])
        invariant
            indx <= b <= message@.len(),
            spec_wsp_end(message@, indx as int) == spec_wsp_end(message@, b as int),
        decreases message@.len() - b,
    {
        b = b + 1;
    }
    let t = unstructured_scan(message, b)?;
    Ok((copy_range(message, b, t), t))
}

/// Skips unstructured text, as `mailimf_unstructured_parse` reads it.
pub fn mailimf_ignore_unstructured_parse(message: &[u8], indx: usize) -> (r: Result<usize, MailError>)
    requires
        indx <= message@.len(),
    ensures
        crate::pos_view(r) == spec_unstructured_scan(message@, indx as int, UnstructuredState::Start, indx as int),
        r matches Ok(t) ==> indx <= t <= message@.len(),
{
    unstructured_scan(message, indx)
}

/// field-name: one or more ftext bytes.
pub fn mailimf_field_name_parse(message: &[u8], indx: usize) -> (r: Result<(Vec<u8>, usize), MailError>)
    requires
        indx <= message@.len(),
    ensures
        res_view(r) == spec_custom_string(message@, indx as int, CharClass::Ftext),
        r matches Ok((_, j)) ==> indx < j <= message@.len(),
{
    mailimf_custom_string_parse(message, indx, CharClass::Ftext)
}

} // verus!
