//! Encoded words of RFC 2047 (`=?charset?B?...?=` and `=?charset?Q?...?=`)
//! and phrases made of encoded and plain words.

use vstd::prelude::*;
use crate::MailError;
use crate::res_view;
use crate::lex::{at, spec_char, spec_fws, spec_skip_fws, spec_token_ci, spec_custom_string,
    spec_ci_eq, mailimf_char_parse, mailimf_fws_parse, skip_fws, lemma_fws,
    mailimf_token_case_insensitive_len_parse, mailimf_custom_string_parse, copy_range};
use crate::chars::{CharClass, spec_to_upper, to_upper};
use crate::codec::{spec_base64_body, spec_quoted_printable_body, mailmime_base64_body_parse,
    mailmime_quoted_printable_body_parse};
use crate::charconv::{charconv, spec_charconv, CharconvError};

verus! {

/// The two transfer encodings of an encoded word.
#[derive(PartialEq, Eq, Structural, Clone, Copy, Debug)]
pub enum EwEncoding {
    B,
    Q,
}

/// An encoded word: the character set it names and its decoded text.
#[allow(non_camel_case_types)]
pub struct mailmime_encoded_word {
    pub wd_charset: Vec<u8>,
    pub wd_text: Vec<u8>,
}

pub struct EncodedWordView {
    pub charset: Seq<u8>,
    pub text: Seq<u8>,
}

impl View for mailmime_encoded_word {
    type V = EncodedWordView;

    open spec fn view(&self) -> EncodedWordView {
        EncodedWordView { charset: self.wd_charset@, text: self.wd_text@ }
    }
}

/// Builds an encoded word.
pub fn mailmime_encoded_word_new(wd_charset: Vec<u8>, wd_text: Vec<u8>) -> (w: mailmime_encoded_word)
    ensures
        w@ == (EncodedWordView { charset: wd_charset@, text: wd_text@ }),
{
    mailmime_encoded_word { wd_charset, wd_text }
}

pub open spec fn spec_encoding(s: Seq<u8>, i: int) -> Result<(EwEncoding, int), MailError> {
    if 0 <= i < s.len() {
        if spec_to_upper(s[i]) == 81 {
            Ok((EwEncoding::Q, i + 1))
        } else if spec_to_upper(s[i]) == 66 {
            Ok((EwEncoding::B, i + 1))
        } else {
            Err(MailError::Inval)
        }
    } else {
        Err(MailError::Parse)
    }
}

/// The letter that names the encoding of an encoded word.
pub fn mailmime_encoding_parse(message: &[u8], indx: usize) -> (r: Result<(EwEncoding, usize), MailError>)
    ensures
        match r {
            Ok((e, j)) => spec_encoding(message@, indx as int) == Ok::<(EwEncoding, int), MailError>((e, j as int)),
            Err(x) => spec_encoding(message@, indx as int) == Err::<(EwEncoding, int), MailError>(x),
        },
{
    if indx >= message.len() {
        return Err(MailError::Parse);
    }
    let c = to_upper(message[indx]);
    if c == 81 {
        Ok((EwEncoding::Q, indx + 1))
    } else if c == 66 {
        Ok((EwEncoding::B, indx + 1))
    } else {
        Err(MailError::Inval)
    }
}

/// The character set of an encoded word: a run of etoken characters.
pub fn mailmime_charset_parse(message: &[u8], indx: usize) -> (r: Result<(Vec<u8>, usize), MailError>)
    requires
        indx <= message@.len(),
    ensures
        res_view(r) == spec_custom_string(message@, indx as int, CharClass::Etoken),
        r matches Ok((_, j)) ==> indx < j <= message@.len(),
{
    mailmime_etoken_parse(message, indx)
}

pub fn mailmime_etoken_parse(message: &[u8], indx: usize) -> (r: Result<(Vec<u8>, usize), MailError>)
    requires
        indx <= message@.len(),
    ensures
        res_view(r) == spec_custom_string(message@, indx as int, CharClass::Etoken),
        r matches Ok((_, j)) ==> indx < j <= message@.len(),
{
    mailimf_custom_string_parse(message, indx, CharClass::Etoken)
}

/// Two byte strings equal but for the case of ASCII letters.
pub open spec fn spec_ci_seq_eq(a: Seq<u8>, b: Seq<u8>) -> bool {
    a.len() == b.len() && forall|k: int| 0 <= k < a.len() ==> #[trigger] spec_ci_eq(a[k], b[k])
}

pub fn ci_seq_eq(a: &[u8], b: &[u8]) -> (r: bool)
    ensures
        r == spec_ci_seq_eq(a@, b@),
{
    if a.len() != b.len() {
        return false;
    }
    let mut k: usize = 0;
    while k < a.len()
        invariant
            a@.len() == b@.len(),
            0 <= k <= a@.len(),
            forall|m: int| 0 <= m < k ==> #[trigger] spec_ci_eq(a@[m], b@[m]),
        decreases a@.len() - k,
    {
        if to_upper(a[k]) != to_upper(b[k]) {
            assert(!spec_ci_eq(a@[k as int], b@[k as int]));
            return false;
        }
        k = k + 1;
    }
    true
}

/// The position of the first `?=` at or after `p`, or the end of the input.
pub open spec fn spec_ew_end(s: Seq<u8>, p: int) -> int
    decreases s.len() - p,
{
    if 0 <= p < s.len() && !(p + 1 < s.len() && s[p] == 63 && s[p + 1] == 61) {
        spec_ew_end(s, p + 1)
    } else {
        p
    }
}

proof fn lemma_ew_end(s: Seq<u8>, p: int)
    requires
        0 <= p <= s.len(),
    ensures
        p <= spec_ew_end(s, p) <= s.len(),
    decreases s.len() - p,
{
    if 0 <= p < s.len() && !(p + 1 < s.len() && s[p] == 63 && s[p + 1] == 61) {
        lemma_ew_end(s, p + 1);
    }
}

pub open spec fn qe_token() -> Seq<u8> {
    seq![63u8, 61u8]
}

pub open spec fn eq_token() -> Seq<u8> {
    seq![61u8, 63u8]
}

/// After an encoded word that ends at `c`: the position of the text of a next
/// encoded word with the same character set and encoding, if there is one.
pub open spec fn spec_ew_continue(s: Seq<u8>, c: int, cs: Seq<u8>, enc: EwEncoding) -> Option<int> {
    let k = spec_skip_fws(s, c);
    match spec_token_ci(s, k, eq_token()) {
        Ok(k2) => match spec_custom_string(s, k2, CharClass::Etoken) {
            Ok((cs2, k3)) => match spec_char(s, k3, 63) {
                Ok(k4) => match spec_encoding(s, k4) {
                    Ok((enc2, k5)) => match spec_char(s, k5, 63) {
                        Ok(k6) => if spec_ci_seq_eq(cs, cs2) && enc == enc2 {
                            Some(k6)
                        } else {
                            None
                        },
                        Err(_) => None,
                    },
                    Err(_) => None,
                },
                Err(_) => None,
            },
            Err(_) => None,
        },
        Err(_) => None,
    }
}

/// The encoded text of an encoded word from `p`, joined with that of the
/// encoded words that follow it with the same character set and encoding
/// (a base64 text that ends in padding is never continued). Gives the joined
/// text and the position after it.
pub open spec fn spec_ew_text(s: Seq<u8>, p: int, cs: Seq<u8>, enc: EwEncoding) -> (Seq<u8>, int)
    decreases s.len() - p,
{
    let e = spec_ew_end(s, p);
    let part = s.subrange(p, e);
    let pad = enc == EwEncoding::B && e > p && s[e - 1] == 61;
    if !(0 <= p <= e <= s.len()) {
        (Seq::empty(), p)
    } else {
        match spec_token_ci(s, e, qe_token()) {
            Err(_) => (part, e),
            Ok(c) => if pad {
                (part, c)
            } else {
                match spec_ew_continue(s, c, cs, enc) {
                    Some(n) => if p < n <= s.len() {
                        let rest = spec_ew_text(s, n, cs, enc);
                        (part + rest.0, rest.1)
                    } else {
                        (part, c)
                    },
                    None => (part, c),
                }
            },
        }
    }
}

pub open spec fn utf8_label() -> Seq<u8> {
    seq![117u8, 116u8, 102u8, 56u8]
}

pub open spec fn utf_8_label() -> Seq<u8> {
    seq![117u8, 116u8, 102u8, 45u8, 56u8]
}

/// The decoded text of an encoded word.
pub open spec fn spec_ew_decode(body: Seq<u8>, enc: EwEncoding) -> Seq<u8> {
    match enc {
        EwEncoding::B => spec_base64_body(body, 0, false).0,
        EwEncoding::Q => spec_quoted_printable_body(body, 0, true, false).0,
    }
}

/// encoded-word, after optional FWS and an optional opening double quote.
/// Gives the word, whether FWS came first and whether a closing quote is
/// missing, and the position after the word.
pub open spec fn spec_encoded_word(s: Seq<u8>, i: int) -> Result<((EncodedWordView, bool, bool), int), MailError> {
    let k0 = spec_skip_fws(s, i);
    let has_fwd = spec_fws(s, i) is Ok;
    let oq = at(s, k0, 34);
    let k1 = if oq { k0 + 1 } else { k0 };
    match spec_token_ci(s, k1, eq_token()) {
        Err(x) => Err(x),
        Ok(k2) => match spec_custom_string(s, k2, CharClass::Etoken) {
            Err(x) => Err(x),
            Ok((cs, k3)) => match spec_char(s, k3, 63) {
                Err(x) => Err(x),
                Ok(k4) => match spec_encoding(s, k4) {
                    Err(x) => Err(x),
                    Ok((enc, k5)) => match spec_char(s, k5, 63) {
                        Err(x) => Err(x),
                        Ok(k6) => {
                            let (body, c) = spec_ew_text(s, k6, cs, enc);
                            let text = spec_ew_decode(body, enc);
                            let closed = spec_char(s, c, 34) is Ok;
                            let c2 = if oq && closed { c + 1 } else { c };
                            let missing = oq && !closed;
                            let charset = if spec_ci_seq_eq(cs, utf8_label()) { utf_8_label() } else { cs };
                            Ok(((EncodedWordView { charset, text }, has_fwd, missing), c2))
                        },
                    },
                },
            },
        },
    }
}

proof fn lemma_ew_text(s: Seq<u8>, p: int, cs: Seq<u8>, enc: EwEncoding)
    requires
        0 <= p <= s.len(),
    ensures
        p <= spec_ew_text(s, p, cs, enc).1 <= s.len(),
    decreases s.len() - p,
{
    lemma_ew_end(s, p);
    let e = spec_ew_end(s, p);
    if let Ok(c) = spec_token_ci(s, e, qe_token()) {
        if let Some(n) = spec_ew_continue(s, c, cs, enc) {
            if p < n <= s.len() {
                lemma_ew_text(s, n, cs, enc);
            }
        }
    }
}

fn ew_continue(message: &[u8], c: usize, cs: &[u8], enc: EwEncoding) -> (r: Option<usize>)
    requires
        c <= message@.len(),
    ensures
        r == (match spec_ew_continue(message@, c as int, cs@, enc) {
            Some(n) => Some(n as usize),
            None => None::<usize>,
        }),
        r matches Some(n) ==> c < n <= message@.len(),
{
    let eq: [u8; 2] = [61, 63];
    let k = skip_fws(message, c);
    let k2 = match mailimf_token_case_insensitive_len_parse(message, k, &eq) {
        Ok(k2) => k2,
        Err(_) => return None,
    };
    assert(eq@ == eq_token());
    let (cs2, k3) = match mailimf_custom_string_parse(message, k2, CharClass::Etoken) {
        Ok(v) => v,
        Err(_) => return None,
    };
    let k4 = match mailimf_char_parse(message, k3, 63) {
        Ok(k4) => k4,
        Err(_) => return None,
    };
    let (enc2, k5) = match mailmime_encoding_parse(message, k4) {
        Ok(v) => v,
        Err(_) => return None,
    };
    let k6 = match mailimf_char_parse(message, k5, 63) {
        Ok(k6) => k6,
        Err(_) => return None,
    };
    if ci_seq_eq(cs, cs2.as_slice()) && enc == enc2 {
        Some(k6)
    } else {
        None
    }
}

fn ew_text(message: &[u8], p: usize, cs: &[u8], enc: EwEncoding) -> (r: (Vec<u8>, usize))
    requires
        p <= message@.len(),
    ensures
        (r.0@, r.1 as int) == spec_ew_text(message@, p as int, cs@, enc),
{
    let ghost whole = spec_ew_text(message@, p as int, cs@, enc);
    let qe: [u8; 2] = [63, 61];
    assert(qe@ == qe_token());
    let mut body: Vec<u8> = Vec::new();
    let mut cur: usize = p;
    loop
        invariant_except_break
            p <= cur <= message@.len(),
            qe@ == qe_token(),
            whole == spec_ew_text(message@, p as int, cs@, enc),
            ({
                let rest = spec_ew_text(message@, cur as int, cs@, enc);
                whole == (body@ + rest.0, rest.1)
            }),
        ensures
            whole == (body@, cur as int),
        decreases message@.len() - cur,
    {
        proof {
            lemma_ew_end(message@, cur as int);
        }
        let ghost body0 = body@;
        let ghost rest0 = spec_ew_text(message@, cur as int, cs@, enc);
        let mut e: usize = cur;
        while e < message.len() && !(e + 1 < message.len() && message[e] == 63 && message[e + 1] == 61)
            invariant
                cur <= e <= message@.len(),
                spec_ew_end(message@, cur as int) == spec_ew_end(message@, e as int),
            decreases message@.len() - e,
        {
            e = e + 1;
        }
        let pad = enc == EwEncoding::B && e > cur && message[e - 1] == 61;
        let mut part = copy_range(message, cur, e);
        let ghost part0 = part@;
        body.append(&mut part);
        assert(spec_ew_end(message@, cur as int) == e);
        assert(body@ == body0 + part0);
        match mailimf_token_case_insensitive_len_parse(message, e, &qe) {
            Err(_) => {
                cur = e;
                proof {
                    assert(body@ =~= body0 + rest0.0);
                }
                break;
            },
            Ok(c) => {
                if pad {
                    cur = c;
                    proof {
                        assert(body@ =~= body0 + rest0.0);
                    }
                    break;
                }
                match ew_continue(message, c, cs, enc) {
                    Some(n) => {
                        proof {
                            let rest1 = spec_ew_text(message@, n as int, cs@, enc);
                            assert(body0 + rest0.0 =~= body@ + rest1.0);
                        }
                        cur = n;
                    },
                    None => {
                        cur = c;
                        proof {
                            assert(body@ =~= body0 + rest0.0);
                        }
                        break;
                    },
                }
            },
        }
    }
    (body, cur)
}

/// Reads an encoded word, after optional FWS and an optional opening double
/// quote. Adjacent encoded words with the same character set and encoding
/// are joined before decoding, so that a character split over them survives.
pub fn mailmime_encoded_word_parse(message: &[u8], indx: usize) -> (r: Result<((mailmime_encoded_word, bool, bool), usize), MailError>)
    requires
        indx <= message@.len(),
    ensures
        res_view(r) == spec_encoded_word(message@, indx as int),
        r matches Ok((_, j)) ==> indx < j <= message@.len(),
{
    proof {
        lemma_fws(message@, indx as int);
    }
    let has_fwd = mailimf_fws_parse(message, indx).is_ok();
    let k0 = skip_fws(message, indx);
    let oq = mailimf_char_parse(message, k0, 34).is_ok();
    let k1 = if oq { k0 + 1 } else { k0 };
    let eq: [u8; 2] = [61, 63];
    assert(eq@ == eq_token());
    let k2 = mailimf_token_case_insensitive_len_parse(message, k1, &eq)?;
    let (cs, k3) = mailimf_custom_string_parse(message, k2, CharClass::Etoken)?;
    let k4 = mailimf_char_parse(message, k3, 63)?;
    let (enc, k5) = mailmime_encoding_parse(message, k4)?;
    let k6 = mailimf_char_parse(message, k5, 63)?;
    proof {
        lemma_ew_text(message@, k6 as int, cs@, enc);
    }
    let (body, c) = ew_text(message, k6, cs.as_slice(), enc);
    let text = match enc {
        EwEncoding::B => {
            match mailmime_base64_body_parse(body.as_slice(), 0) {
                Ok((t, _)) => t,
                Err(_) => Vec::new(),
            }
        },
        EwEncoding::Q => {
            match mailmime_quoted_printable_body_parse(body.as_slice(), 0, true) {
                Ok((t, _)) => t,
                Err(_) => Vec::new(),
            }
        },
    };
    let closed = mailimf_char_parse(message, c, 34).is_ok();
    let c2 = if oq && closed { c + 1 } else { c };
    let missing = oq && !closed;
    let utf8: [u8; 4] = [117, 116, 102, 56];
    assert(utf8@ == utf8_label());
    let charset = if ci_seq_eq(cs.as_slice(), &utf8) {
        let v: Vec<u8> = vec![117u8, 116u8, 102u8, 45u8, 56u8];
        assert(v@ == utf_8_label());
        v
    } else {
        cs
    };
    Ok(((mailmime_encoded_word_new(charset, text), has_fwd, missing), c2))
}

/// The end of a plain word: white space, a line break, or the start of `=?`.
pub open spec fn spec_plain_word_end(s: Seq<u8>, p: int) -> int
    decreases s.len() - p,
{
    if 0 <= p < s.len() && !(s[p] == 32 || s[p] == 9 || s[p] == 13 || s[p] == 10
        || (s[p] == 61 && p + 1 < s.len() && s[p + 1] == 63)) {
        spec_plain_word_end(s, p + 1)
    } else {
        p
    }
}

proof fn lemma_plain_word_end(s: Seq<u8>, p: int)
    requires
        0 <= p <= s.len(),
    ensures
        p <= spec_plain_word_end(s, p) <= s.len(),
    decreases s.len() - p,
{
    if 0 <= p < s.len() && !(s[p] == 32 || s[p] == 9 || s[p] == 13 || s[p] == 10
        || (s[p] == 61 && p + 1 < s.len() && s[p + 1] == 63)) {
        lemma_plain_word_end(s, p + 1);
    }
}

/// A word that is not encoded, after optional FWS; gives it and whether FWS came first.
pub open spec fn spec_non_encoded_word(s: Seq<u8>, i: int) -> Result<((Seq<u8>, bool), int), MailError> {
    let k = spec_skip_fws(s, i);
    let has_fwd = spec_fws(s, i) is Ok;
    let e = spec_plain_word_end(s, k);
    if e > k {
        Ok(((s.subrange(k, e), has_fwd), e))
    } else {
        Err(MailError::Parse)
    }
}

pub fn mailmime_non_encoded_word_parse(message: &[u8], indx: usize) -> (r: Result<((Vec<u8>, bool), usize), MailError>)
    requires
        indx <= message@.len(),
    ensures
        res_view(r) == spec_non_encoded_word(message@, indx as int),
        r matches Ok((_, j)) ==> indx < j <= message@.len(),
{
    proof {
        lemma_fws(message@, indx as int);
    }
    let has_fwd = mailimf_fws_parse(message, indx).is_ok();
    let k = skip_fws(message, indx);
    proof {
        lemma_plain_word_end(message@, k as int);
    }
    let mut e: usize = k;
    while e < message.len() && !(message[e] == 32 || message[e] == 9 || message[e] == 13
        || message[e] == 10 || (message[e] == 61 && e + 1 < message.len() && message[e + 1] == 63))
        invariant
            k <= e <= message@.len(),
            spec_plain_word_end(message@, k as int) == spec_plain_word_end(message@, e as int),
        decreases message@.len() - e,
    {
        e = e + 1;
    }
    if e == k {
        return Err(MailError::Parse);
    }
    Ok(((copy_range(message, k, e), has_fwd), e))
}

/// How the previous word of a phrase was written.
#[derive(PartialEq, Eq, Structural, Clone, Copy, Debug)]
pub enum WordKind {
    Nothing,
    Plain,
    Encoded,
}

/// The text that a converted word adds to a phrase.
pub open spec fn spec_converted(c: Result<Seq<u8>, CharconvError>) -> Seq<u8> {
    match c {
        Ok(t) => t,
        Err(_) => Seq::empty(),
    }
}

/// The rest of an encoded phrase from position `p`: `acc` is the text so far,
/// `first` tells whether no word has been read yet, `kind` how the last word was
/// written. Gives the whole text and the final position.
pub open spec fn spec_phrase_scan(dflt: Seq<u8>, s: Seq<u8>, p: int, acc: Seq<u8>, first: bool, kind: WordKind) -> Result<(Seq<u8>, int), MailError>
    decreases s.len() - p,
{
    if !(0 <= p <= s.len()) {
        Err(MailError::Parse)
    } else {
        match spec_encoded_word(s, p) {
            Ok(((w, fwd, _), c)) => {
                let sep = if !first && fwd && kind != WordKind::Encoded { seq![32u8] } else { Seq::empty() };
                let conv = match spec_charconv(w.charset, w.text) {
                    Err(CharconvError::UnknownCharset) => spec_charconv(seq![105u8, 115u8, 111u8, 45u8, 56u8, 56u8, 53u8, 57u8, 45u8, 49u8], w.text),
                    other => other,
                };
                if p < c <= s.len() {
                    spec_phrase_scan(dflt, s, c, acc + sep + spec_converted(conv), false, WordKind::Encoded)
                } else {
                    Err(MailError::Parse)
                }
            },
            Err(MailError::Parse) => match spec_non_encoded_word(s, p) {
                Ok(((raw, fwd), c)) => {
                    let sep = if !first && fwd { seq![32u8] } else { Seq::empty() };
                    match spec_charconv(dflt, raw) {
                        Ok(t) => if p < c <= s.len() {
                            spec_phrase_scan(dflt, s, c, acc + sep + t, false, WordKind::Plain)
                        } else {
                            Err(MailError::Parse)
                        },
                        Err(_) => Err(MailError::Parse),
                    }
                },
                Err(_) => match spec_fws(s, p) {
                    Ok(c) => Ok((acc + seq![32u8], c)),
                    Err(_) => if first && p != s.len() {
                        Err(MailError::Parse)
                    } else {
                        Ok((acc, p))
                    },
                },
            },
            Err(x) => Err(x),
        }
    }
}

/// A phrase made of encoded and plain words, converted to UTF-8; plain words
/// are taken to be in the character set `default_fromcode`.
pub open spec fn spec_encoded_phrase(dflt: Seq<u8>, s: Seq<u8>, i: int) -> Result<(Seq<u8>, int), MailError> {
    spec_phrase_scan(dflt, s, i, Seq::empty(), true, WordKind::Nothing)
}

/// One word of a phrase once converted: whether it was an encoded word,
/// whether folding white space came before it, and its UTF-8 text.
pub struct PhraseWord {
    pub encoded: bool,
    pub fws: bool,
    pub text: Vec<u8>,
}

/// The separator put before the last word of `ws`: one space when folding
/// white space came before it, it is not the first word, and it is not an
/// encoded word that follows another encoded word.
pub open spec fn spec_word_sep(ws: Seq<PhraseWord>) -> Seq<u8> {
    let prev = ws.drop_last();
    if prev.len() > 0 && ws.last().fws && (!ws.last().encoded || !prev.last().encoded) {
        seq![32u8]
    } else {
        Seq::empty()
    }
}

/// The text of a phrase made of the converted words `ws`.
pub open spec fn spec_phrase_join(ws: Seq<PhraseWord>) -> Seq<u8>
    decreases ws.len(),
{
    if ws.len() == 0 {
        Seq::empty()
    } else {
        spec_phrase_join(ws.drop_last()) + spec_word_sep(ws) + ws.last().text@
    }
}

/// How the last word of `ws` was written.
pub open spec fn spec_last_kind(ws: Seq<PhraseWord>) -> WordKind {
    if ws.len() == 0 {
        WordKind::Nothing
    } else if ws.last().encoded {
        WordKind::Encoded
    } else {
        WordKind::Plain
    }
}

proof fn lemma_join_push(ws: Seq<PhraseWord>, w: PhraseWord)
    ensures
        ws.push(w).drop_last() == ws,
        spec_phrase_join(ws.push(w)) == spec_phrase_join(ws) + (if ws.len() > 0 && w.fws
            && (!w.encoded || spec_last_kind(ws) != WordKind::Encoded) { seq![32u8] } else { Seq::<u8>::empty() }) + w.text@,
        spec_last_kind(ws.push(w)) == (if w.encoded { WordKind::Encoded } else { WordKind::Plain }),
        ws.push(w).len() != 0,
{
    assert(ws.push(w).drop_last() =~= ws);
}

/// Puts the converted words of a phrase together: a space stands between two
/// words where folding white space separated them, except between two encoded
/// words.
pub fn mailmime_phrase_join(words: &Vec<PhraseWord>) -> (r: Vec<u8>)
    ensures
        r@ == spec_phrase_join(words@),
{
    let mut acc: Vec<u8> = Vec::new();
    let mut i: usize = 0;
    while i < words.len()
        invariant
            i <= words@.len(),
            acc@ == spec_phrase_join(words@.take(i as int)),
        decreases words@.len() - i,
    {
        let ghost ws = words@.take(i as int + 1);
        assert(ws.drop_last() =~= words@.take(i as int));
        if i > 0 && words[i].fws && (!words[i].encoded || !words[i - 1].encoded) {
            acc.push(32);
        }
        let ghost acc1 = acc@;
        assert(acc1 =~= spec_phrase_join(ws.drop_last()) + spec_word_sep(ws));
        let mut t = words[i].text.clone();
        acc.append(&mut t);
        i = i + 1;
    }
    assert(words@.take(words@.len() as int) =~= words@);
    acc
}

/// Reads a phrase of encoded and plain words and converts it to UTF-8.
pub fn mailmime_encoded_phrase_parse(default_fromcode: &[u8], message: &[u8], indx: usize, tocode: &[u8]) -> (r: Result<(Vec<u8>, usize), MailError>)
    requires
        indx <= message@.len(),
    ensures
        res_view(r) == spec_encoded_phrase(default_fromcode@, message@, indx as int),
{
    let ghost whole = spec_encoded_phrase(default_fromcode@, message@, indx as int);
    let iso: [u8; 10] = [105, 115, 111, 45, 56, 56, 53, 57, 45, 49];
    let mut words: Vec<PhraseWord> = Vec::new();
    let mut cur: usize = indx;
    loop
        invariant
            indx <= cur <= message@.len(),
            whole == spec_encoded_phrase(default_fromcode@, message@, indx as int),
            iso@ == seq![105u8, 115u8, 111u8, 45u8, 56u8, 56u8, 53u8, 57u8, 45u8, 49u8],
            whole == spec_phrase_scan(default_fromcode@, message@, cur as int,
                spec_phrase_join(words@), words@.len() == 0, spec_last_kind(words@)),
        decreases message@.len() - cur,
    {
        let ghost ws0 = words@;
        match mailmime_encoded_word_parse(message, cur) {
            Ok(((w, fwd, _), c)) => {
                let conv = match charconv(tocode, w.wd_charset.as_slice(), w.wd_text.as_slice()) {
                    Err(CharconvError::UnknownCharset) => charconv(tocode, &iso, w.wd_text.as_slice()),
                    other => other,
                };
                let text = match conv {
                    Ok(t) => t,
                    Err(_) => Vec::new(),
                };
                let ghost pw = PhraseWord { encoded: true, fws: fwd, text };
                proof { lemma_join_push(ws0, pw); }
                words.push(PhraseWord { encoded: true, fws: fwd, text });
                cur = c;
            },
            Err(MailError::Parse) => {
                match mailmime_non_encoded_word_parse(message, cur) {
                    Ok(((raw, fwd), c)) => {
                        match charconv(tocode, default_fromcode, raw.as_slice()) {
                            Ok(t) => {
                                let ghost pw = PhraseWord { encoded: false, fws: fwd, text: t };
                                proof { lemma_join_push(ws0, pw); }
                                words.push(PhraseWord { encoded: false, fws: fwd, text: t });
                            },
                            Err(_) => {
                                return Err(MailError::Parse);
                            },
                        }
                        cur = c;
                    },
                    Err(_) => {
                        match mailimf_fws_parse(message, cur) {
                            Ok(c) => {
                                let mut acc = mailmime_phrase_join(&words);
                                acc.push(32);
                                assert(acc@ =~= spec_phrase_join(words@) + seq![32u8]);
                                return Ok((acc, c));
                            },
                            Err(_) => {
                                if words.len() == 0 && cur != message.len() {
                                    return Err(MailError::Parse);
                                }
                                let acc = mailmime_phrase_join(&words);
                                return Ok((acc, cur));
                            },
                        }
                    },
                }
            },
            Err(x) => {
                return Err(x);
            },
        }
    }
}

/// The letter of an encoded word names its encoding: `B` or `b` is base64,
/// `Q` or `q` is quoted-printable, and any other byte is refused.
pub proof fn law_encoding_letters(s: Seq<u8>, i: int)
    requires
        0 <= i < s.len(),
    ensures
        (s[i] == 66 || s[i] == 98) ==> spec_encoding(s, i) == Ok::<(EwEncoding, int), MailError>((EwEncoding::B, i + 1)),
        (s[i] == 81 || s[i] == 113) ==> spec_encoding(s, i) == Ok::<(EwEncoding, int), MailError>((EwEncoding::Q, i + 1)),
        !(s[i] == 66 || s[i] == 98 || s[i] == 81 || s[i] == 113) ==> spec_encoding(s, i) is Err,
{
}

} // verus!
