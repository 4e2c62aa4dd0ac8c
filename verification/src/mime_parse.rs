//! Reading the MIME structure of a message: a part's content type decides
//! whether its body is read as it stands, cut into parts at the boundary, or
//! read as an enclosed message, and so on down the tree.

use vstd::prelude::*;
use crate::MailError;
use crate::lex::{spec_crlf, mailimf_crlf_parse, copy_range};
use crate::encoded_word::{spec_ci_seq_eq, ci_seq_eq};
use crate::address::opt_bytes_view;
use crate::header::{mailimf_fields, FieldView, FieldMode, spec_fields_m,
    mailimf_envelope_and_optional_fields_parse, mailimf_optional_fields_parse};
use crate::mime_fields::{mailmime_content, ContentView, MimeTypeView, mailmime_type, spec_boundary,
    spec_lone_quote_boundary, spec_param_get, param_boundary, mailmime_content_param_get,
    mailmime_extract_boundary, mailmime_get_content_text, mailmime_get_content_message,
    subtype_plain, subtype_rfc822};
use crate::mime_header::{mailmime_field, mailmime_fields, MimeFieldView, mime_fields_view,
    spec_mime_fields, spec_transfer_encoding, mailmime_fields_parse, mailmime_transfer_encoding_get,
    mailmime_fields_new, mailmime_fields_new_empty};
use crate::mime_scan::{spec_preamble_scan, spec_boundary_at, spec_skip_lwsp, spec_lwsp,
    spec_next_scan, spec_transport, spec_dash2_close, mailmime_preamble_parse,
    mailmime_boundary_parse, skip_lwsp, mailmime_lwsp_parse, mailmime_multipart_next_parse,
    mailmime_body_part_dash2_transport_crlf_parse, mailmime_body_part_dash2_close_parse};
use crate::mime::{mailmime, mailmime_data, MimeBody, MimeView, MimeBodyView, DataView, mime_view,
    mimes_view, opt_content_view, opt_mime_fields_view, opt_data_view, opt_fields_view,
    mailmime_data_new, lemma_fields_rest, lemma_mime_fields_nonempty, spec_remove_unparsed, body_view, lemma_mime_view,
    remove_unparsed_mime_headers};

verus! {

/// An optional CRLF.
pub open spec fn spec_opt_crlf(s: Seq<u8>, i: int) -> Result<int, MailError> {
    match spec_crlf(s, i) {
        Ok(j) => Ok(j),
        Err(MailError::Parse) => Ok(i),
        Err(x) => Err(x),
    }
}

fn opt_crlf(message: &[u8], indx: usize) -> (r: Result<usize, MailError>)
    requires
        indx <= message@.len(),
    ensures
        crate::pos_view(r) == spec_opt_crlf(message@, indx as int),
        r matches Ok(j) ==> indx <= j <= message@.len(),
{
    match mailimf_crlf_parse(message, indx) {
        Ok(j) => Ok(j),
        Err(MailError::Parse) => Ok(indx),
        Err(x) => Err(x),
    }
}

/// The measure that orders a part after the fields it was given: 2 with a
/// content type or MIME fields, 1 with only a default type other than text.
pub open spec fn spec_tag(dt: i32, ct: Option<ContentView>, mf: Option<Seq<MimeFieldView>>) -> int {
    if ct is Some || mf is Some { 2 } else if dt != 0 { 1 } else { 0 }
}

/// Where the first Content-Type field stands, from the `k`-th field on.
pub open spec fn spec_type_field_from(fs: Seq<MimeFieldView>, k: int) -> Option<int>
    decreases fs.len() - k,
{
    if k < 0 || k >= fs.len() {
        None
    } else if fs[k] is Type {
        Some(k)
    } else {
        spec_type_field_from(fs, k + 1)
    }
}

/// The content type of a part: the one given, else the first Content-Type
/// field, which is then taken out of the MIME fields.
#[verifier::opaque]
pub open spec fn spec_take_content_type(ct: Option<ContentView>, mf: Option<Seq<MimeFieldView>>) -> (Option<ContentView>, Option<Seq<MimeFieldView>>) {
    match ct {
        Some(c) => (Some(c), mf),
        None => match mf {
            None => (None, None),
            Some(f) => match spec_type_field_from(f, 0) {
                Some(k) => match f[k] {
                    MimeFieldView::Type(c) => (Some(c), Some(f.remove(k))),
                    _ => (None, Some(f)),
                },
                None => (None, Some(f)),
            },
        },
    }
}

fn take_content_type(ct: Option<mailmime_content>, mf: Option<mailmime_fields>) -> (r: (Option<mailmime_content>, Option<mailmime_fields>))
    ensures
        (opt_content_view(r.0), opt_mime_fields_view(r.1)) == spec_take_content_type(opt_content_view(ct), opt_mime_fields_view(mf)),
{
    reveal(spec_take_content_type);
    match ct {
        Some(c) => (Some(c), mf),
        None => match mf {
            None => (None, None),
            Some(f) => {
                let ghost fs = f@;
                let mut list = f.fld_list;
                let n = list.len();
                let mut k: usize = 0;
                while k < n
                    invariant
                        n == list@.len(),
                        fs == mime_fields_view(list@),
                        opt_mime_fields_view(mf) == Some(fs),
                        opt_content_view(ct) == None::<ContentView>,
                        0 <= k <= n,
                        spec_type_field_from(fs, 0) == spec_type_field_from(fs, k as int),
                    decreases n - k,
                {
                    assert(fs[k as int] == list@[k as int]@);
                    if let mailmime_field::Type(_) = &list[k] {
                        assert(spec_type_field_from(fs, k as int) == Some(k as int));
                        let ghost l0 = list@;
                        let fld = list.remove(k);
                        assert(fld@ == fs[k as int]);
                        assert(mime_fields_view(list@) =~= fs.remove(k as int)) by {
                            assert forall|m: int| 0 <= m < list@.len() implies mime_fields_view(list@)[m] == fs.remove(k as int)[m] by {
                                if m < k {
                                    assert(list@[m] == l0[m]);
                                } else {
                                    assert(list@[m] == l0[m + 1]);
                                }
                            }
                        }
                        match fld {
                            mailmime_field::Type(c) => {
                                proof {
                                    reveal(spec_take_content_type);
                                }
                                return (Some(c), Some(mailmime_fields_new(list)));
                            },
                            _ => {
                                assert(false);
                                return (None, Some(mailmime_fields_new(list)));
                            },
                        }
                    }
                    k = k + 1;
                }
                (None, Some(mailmime_fields_new(list)))
            },
        },
    }
}

pub open spec fn content_text_view() -> ContentView {
    ContentView { ty: MimeTypeView::Discrete(1, None), subtype: subtype_plain(), params: Seq::empty() }
}

pub open spec fn content_message_view() -> ContentView {
    ContentView { ty: MimeTypeView::Composite(1, None), subtype: subtype_rfc822(), params: Seq::empty() }
}

/// How a content type's body is read: multipart with a boundary as parts
/// (`MAILMIME_MULTIPLE`), message/rfc822 as a message (`MAILMIME_MESSAGE`),
/// the rest as it stands (`MAILMIME_SINGLE`); another composite type is
/// refused (-1). A boundary that is a lone quote counts as no boundary.
#[verifier::opaque]
pub open spec fn spec_body_type(c: ContentView) -> i32 {
    match c.ty {
        MimeTypeView::Composite(t, _) => if t == 2 {
            if spec_boundary(c) is Some && !spec_lone_quote_boundary(c) { 2 } else { 1 }
        } else if t == 1 {
            if spec_ci_seq_eq(c.subtype, subtype_rfc822()) { 3 } else { 1 }
        } else {
            -1i32
        },
        MimeTypeView::Discrete(_, _) => 1,
    }
}

fn body_type(c: &mailmime_content) -> (r: (i32, Option<Vec<u8>>))
    ensures
        r.0 == spec_body_type(c@),
        r.0 == 2 ==> opt_bytes_view(r.1) == spec_boundary(c@),
{
    reveal(spec_body_type);
    match &c.ct_type {
        mailmime_type::CompositeType(ct) => {
            if ct.ct_type == 2 {
                let name: [u8; 8] = [98, 111, 117, 110, 100, 97, 114, 121];
                assert(name@ == param_boundary());
                let lone = match mailmime_content_param_get(c, &name) {
                    Some(b) => b.len() == 1 && b[0] == 34,
                    None => false,
                };
                if lone {
                    return (1, None);
                }
                match mailmime_extract_boundary(c) {
                    Some(b) => (2, Some(b)),
                    None => (1, None),
                }
            } else if ct.ct_type == 1 {
                let rfc: [u8; 6] = [114, 102, 99, 56, 50, 50];
                assert(rfc@ == subtype_rfc822());
                if ci_seq_eq(c.ct_subtype.as_slice(), &rfc) { (3, None) } else { (1, None) }
            } else {
                (-1, None)
            }
        },
        mailmime_type::DiscreteType(_) => (1, None),
    }
}


pub proof fn lemma_take_content_type(ct: Option<ContentView>, mf: Option<Seq<MimeFieldView>>)
    ensures
        spec_take_content_type(ct, mf).0 is Some ==> (ct is Some || mf is Some),
{
    reveal(spec_take_content_type);
}

pub proof fn lemma_default_body_types()
    ensures
        spec_body_type(content_text_view()) == 1,
        spec_body_type(content_message_view()) == 3,
{
    reveal(spec_body_type);
    assert(spec_ci_seq_eq(subtype_rfc822(), subtype_rfc822())) by {
        assert forall|k: int| 0 <= k < subtype_rfc822().len() implies #[trigger] crate::lex::spec_ci_eq(subtype_rfc822()[k], subtype_rfc822()[k]) by {}
    }
}

pub open spec fn subtype_digest() -> Seq<u8> { seq![100u8, 105u8, 103u8, 101u8, 115u8, 116u8] }

/// Text with its transfer encoding, as the parser records it.
pub open spec fn text_data(enc: i32, d: Seq<u8>) -> DataView {
    DataView { ty: 0, encoding: enc, encoded: 1, data: d }
}

/// The preamble's end after the line break before its delimiter is taken off.
pub open spec fn spec_trim_preamble(s: Seq<u8>, begin: int, pe: int) -> int {
    if pe != begin {
        if s[pe - 1] == 10 {
            let p3 = pe - 1;
            if p3 - 1 >= begin && s[p3 - 1] == 13 { p3 - 1 } else { p3 }
        } else if s[pe - 1] == 13 {
            pe - 1
        } else {
            pe
        }
    } else {
        pe
    }
}

fn trim_preamble(message: &[u8], begin: usize, pe: usize) -> (r: usize)
    requires
        begin <= pe <= message@.len(),
    ensures
        r == spec_trim_preamble(message@, begin as int, pe as int),
        begin <= r <= pe,
{
    if pe != begin {
        if message[pe - 1] == 10 {
            let p3 = pe - 1;
            if p3 >= begin + 1 && message[p3 - 1] == 13 { p3 - 1 } else { p3 }
        } else if message[pe - 1] == 13 {
            pe - 1
        } else {
            pe
        }
    } else {
        pe
    }
}

proof fn lemma_preamble_scan(s: Seq<u8>, p: int, st: u8)
    requires
        0 <= p <= s.len(),
    ensures
        spec_preamble_scan(s, p, st) matches Ok(c) ==> p + 1 <= c <= s.len() && (st <= 4 && st != 2 ==> p + 2 <= c),
    decreases s.len() - p,
{
    if p < s.len() {
        let c = s[p];
        let next: u8 = if st == 0 {
            if c == 45 { 2 } else if c == 13 { 3 } else if c == 10 { 4 } else { 1 }
        } else if st == 1 {
            if c == 13 { 3 } else if c == 10 { 4 } else { 1 }
        } else if st == 2 {
            if c == 45 { 6 } else if c == 13 { 3 } else if c == 10 { 4 } else { 1 }
        } else if st == 3 {
            if c == 13 { 3 } else if c == 10 { 4 } else if c == 45 { 5 } else { 0 }
        } else if st == 4 {
            if c == 45 { 5 } else if c == 13 { 3 } else if c == 10 { 4 } else { 0 }
        } else {
            if c == 45 { 6 } else { 1 }
        };
        if next != 6 {
            lemma_preamble_scan(s, p + 1, next);
        }
    }
}

/// After a `--` at the start of a line: either the boundary follows, or the
/// scan goes on to the next such `--`. Gives where the `--` ended and where
/// the cursor stands.
pub open spec fn spec_preamble_loop(s: Seq<u8>, b: Seq<u8>, p: int) -> Result<(int, int), MailError>
    decreases s.len() - p,
{
    match spec_boundary_at(s, p, b) {
        Ok(c) => Ok((p, c)),
        Err(MailError::Parse) => match spec_preamble_scan(s, p, 1) {
            Ok(c) => if 0 <= p < c <= s.len() { spec_preamble_loop(s, b, c) } else { Err(MailError::Parse) },
            Err(MailError::Parse) => Ok((p, p)),
            Err(x) => Err(x),
        },
        Err(x) => Err(x),
    }
}

fn preamble_loop(message: &[u8], boundary: &[u8], indx: usize) -> (r: Result<(usize, usize), MailError>)
    requires
        indx <= message@.len(),
    ensures
        match (r, spec_preamble_loop(message@, boundary@, indx as int)) {
            (Ok((a, b)), Ok((c, d))) => a == c && b == d,
            (Err(x), Err(y)) => x == y,
            _ => false,
        },
        r matches Ok((pe, c)) ==> indx <= pe <= c <= message@.len(),
{
    let ghost whole = spec_preamble_loop(message@, boundary@, indx as int);
    let mut p: usize = indx;
    loop
        invariant
            indx <= p <= message@.len(),
            whole == spec_preamble_loop(message@, boundary@, indx as int),
            whole == spec_preamble_loop(message@, boundary@, p as int),
        decreases message@.len() - p,
    {
        match mailmime_boundary_parse(message, p, boundary) {
            Ok(c) => return Ok((p, c)),
            Err(MailError::Parse) => {},
            Err(x) => return Err(x),
        }
        match mailmime_preamble_parse(message, p, false) {
            Ok(c) => {
                p = c;
            },
            Err(MailError::Parse) => return Ok((p, p)),
            Err(x) => return Err(x),
        }
    }
}

/// Line breaks, each with optional LWSP before it, after the boundary that
/// opens the first part; gives where the first part starts.
pub open spec fn spec_part_begin(s: Seq<u8>, cur: int, pb: int) -> Result<int, MailError>
    decreases s.len() - cur,
{
    if cur < 0 || cur > s.len() {
        Err(MailError::Parse)
    } else {
        let c2 = match spec_lwsp(s, cur) {
            Ok(j) => j,
            Err(_) => cur,
        };
        match spec_crlf(s, c2) {
            Ok(c3) => if cur < c3 <= s.len() { spec_part_begin(s, c3, c3) } else { Err(MailError::Parse) },
            Err(MailError::Parse) => Ok(pb),
            Err(x) => Err(x),
        }
    }
}

fn part_begin(message: &[u8], indx: usize) -> (r: Result<usize, MailError>)
    requires
        indx <= message@.len(),
    ensures
        crate::pos_view(r) == spec_part_begin(message@, indx as int, indx as int),
        r matches Ok(j) ==> indx <= j <= message@.len(),
{
    let ghost whole = spec_part_begin(message@, indx as int, indx as int);
    let mut cur: usize = indx;
    loop
        invariant
            indx <= cur <= message@.len(),
            whole == spec_part_begin(message@, indx as int, indx as int),
            whole == spec_part_begin(message@, cur as int, cur as int),
        decreases message@.len() - cur,
    {
        let c2 = match mailmime_lwsp_parse(message, cur) {
            Ok(j) => j,
            Err(_) => cur,
        };
        match mailimf_crlf_parse(message, c2) {
            Ok(c3) => {
                cur = c3;
            },
            Err(MailError::Parse) => return Ok(cur),
            Err(x) => return Err(x),
        }
    }
}


/// A part's header: every field read as an optional field.
#[verifier::opaque]
pub open spec fn spec_part_header(d: Seq<u8>) -> Result<(Seq<FieldView>, int), MailError> {
    spec_fields_m(d, 0, FieldMode::OnlyOptional)
}

/// An enclosed message's header: envelope fields, the others as optional fields.
#[verifier::opaque]
pub open spec fn spec_message_header(s: Seq<u8>, i: int) -> Result<(Seq<FieldView>, int), MailError> {
    spec_fields_m(s, i, FieldMode::EnvelopeOrOptional)
}

proof fn lemma_header_progress(s: Seq<u8>, i: int, m: FieldMode)
    requires
        0 <= i <= s.len(),
    ensures
        spec_fields_m(s, i, m) matches Ok((l, e)) ==> i <= e <= s.len() && (l.len() > 0 ==> i < e),
{
    lemma_fields_rest(s, i, Seq::empty(), m);
}

fn part_header(d: &[u8]) -> (r: Result<(mailimf_fields, usize), MailError>)
    ensures
        crate::res_view(r) == spec_part_header(d@),
        r matches Ok((f, e)) ==> e <= d@.len() && (f@.len() > 0 ==> 0 < e),
{
    reveal(spec_part_header);
    proof {
        lemma_header_progress(d@, 0, FieldMode::OnlyOptional);
    }
    mailimf_optional_fields_parse(d, 0)
}

fn message_header(message: &[u8], indx: usize) -> (r: Result<(mailimf_fields, usize), MailError>)
    requires
        indx <= message@.len(),
    ensures
        crate::res_view(r) == spec_message_header(message@, indx as int),
        r matches Ok((f, e)) ==> indx <= e <= message@.len() && (f@.len() > 0 ==> indx < e),
{
    reveal(spec_message_header);
    proof {
        lemma_header_progress(message@, indx as int, FieldMode::EnvelopeOrOptional);
    }
    mailimf_envelope_and_optional_fields_parse(message, indx)
}

/// A part's MIME structure, read from its own bytes `d`: its header (every
/// field as an optional field), an optional blank line, then the part
/// itself, with `dsub` as its default type.
pub open spec fn spec_part(d: Seq<u8>, dsub: i32) -> Result<MimeView, MailError>
    decreases d.len(), 2int, 0int,
{
    match spec_part_header(d) {
        Err(x) => Err(x),
        Ok((f, e)) => match spec_opt_crlf(d, e) {
            Err(x) => Err(x),
            Ok(e2) => {
                let subr: Result<Option<Seq<MimeFieldView>>, MailError> = match spec_mime_fields(f) {
                    Ok(l) => Ok(Some(l)),
                    Err(MailError::Parse) => Ok(None),
                    Err(x) => Err(x),
                };
                match subr {
                    Err(x) => Err(x),
                    Ok(sub) => if 0 <= e2 <= d.len() && (e2 > 0 || sub is None) {
                        match spec_parse_with_default(d, e2, dsub, None, sub) {
                            Ok((m, _)) => Ok(m),
                            Err(x) => Err(x),
                        }
                    } else {
                        Err(MailError::Parse)
                    },
                }
            },
        },
    }
}

/// The parts of a multipart body from `p` on, each after its delimiter line;
/// the last is the one that a close delimiter (or the end of the bytes)
/// ends. A part that cannot be read ends the list. Gives the parts and where
/// the cursor stands after them.
pub open spec fn spec_parts(s: Seq<u8>, b: Seq<u8>, dsub: i32, p: int, acc: Seq<MimeView>) -> Result<(Seq<MimeView>, int), MailError>
    decreases s.len() - p, 2int, 1int,
{
    if p < 0 || p > s.len() {
        Err(MailError::Parse)
    } else {
        let tr: Result<(((int, int), int), bool), MailError> = match spec_transport(s, p, b) {
            Ok(x) => Ok((x, false)),
            Err(MailError::Parse) => match spec_dash2_close(s, p, b) {
                Ok(x) => Ok((x, true)),
                Err(y) => Err(y),
            },
            Err(y) => Err(y),
        };
        match tr {
            Err(x) => Err(x),
            Ok((((beg, n), c), fin)) => if beg == p && 0 < n && p + n <= c <= s.len() {
                match spec_part(s.subrange(p, p + n), dsub) {
                    Ok(m) => {
                        let acc2 = acc.push(m);
                        let c2 = match spec_next_scan(s, c, 0) {
                            Ok(q) => q,
                            Err(_) => c,
                        };
                        if fin {
                            Ok((acc2, c2))
                        } else if p < c2 <= s.len() {
                            spec_parts(s, b, dsub, c2, acc2)
                        } else {
                            Err(MailError::Parse)
                        }
                    },
                    Err(MailError::Parse) => Ok((acc, c)),
                    Err(x) => Err(x),
                }
            } else {
                Err(MailError::Parse)
            },
        }
    }
}


/// The end of a multipart body, once its parts are read: the epilogue starts
/// after LWSP and a line break that follow the parts.
pub open spec fn spec_multipart_finish(s: Seq<u8>, i: int, pend: int, parts: Result<(Seq<MimeView>, int), MailError>) -> Result<(Seq<MimeView>, Option<DataView>, Option<DataView>), MailError> {
    match parts {
        Err(x) => Err(x),
        Ok((list, c)) => if 0 <= c <= s.len() {
            let c2 = spec_skip_lwsp(s, c);
            let ebr: Result<int, MailError> = match spec_crlf(s, c2) {
                Ok(c3) => Ok(c3),
                Err(MailError::Parse) => Ok(s.len() as int),
                Err(x) => Err(x),
            };
            match ebr {
                Err(x) => Err(x),
                Ok(eb) => {
                    let pre = if pend - i != 0 { Some(text_data(2, s.subrange(i, pend))) } else { None };
                    let epi = if s.len() - eb != 0 { Some(text_data(2, s.subrange(eb, s.len() as int))) } else { None };
                    Ok((list, pre, epi))
                },
            }
        } else {
            Err(MailError::Parse)
        },
    }
}

/// A multipart body with boundary `b`: the preamble, the parts, and the
/// epilogue after the close delimiter's line. Preamble and epilogue are
/// left out when empty; when no `--` starts a line, there is no preamble.
pub open spec fn spec_multipart_body(s: Seq<u8>, i: int, b: Seq<u8>, dsub: i32) -> Result<(Seq<MimeView>, Option<DataView>, Option<DataView>), MailError>
    decreases s.len() - i, 2int, 2int,
{
    if i < 0 || i > s.len() {
        Err(MailError::Parse)
    } else {
        let pr: Result<(bool, int, int), MailError> = match spec_preamble_scan(s, i, 0) {
            Ok(c) => match spec_preamble_loop(s, b, c) {
                Ok((pe, cur)) => Ok((true, pe, cur)),
                Err(x) => Err(x),
            },
            Err(_) => Ok((false, i, i)),
        };
        match pr {
            Err(x) => Err(x),
            Ok((found, pe, cur)) => {
                let pend = if found { spec_trim_preamble(s, i, pe - 2) } else { i };
                match spec_part_begin(s, cur, cur) {
                    Err(x) => Err(x),
                    Ok(pb) => if i <= pb <= s.len() {
                        spec_multipart_finish(s, i, pend, spec_parts(s, b, dsub, pb, Seq::empty()))
                    } else {
                        Err(MailError::Parse)
                    },
                }
            },
        }
    }
}

/// A part read from `i` on, with `dt` as its default type, `ct` the content
/// type if one is already known and `mf` its MIME fields. Its body is all
/// the bytes from `i` on; it reads to the end of the bytes.
pub open spec fn spec_parse_with_default(s: Seq<u8>, i: int, dt: i32, ct: Option<ContentView>, mf: Option<Seq<MimeFieldView>>) -> Result<(MimeView, int), MailError>
    decreases s.len() - i, spec_tag(dt, ct, mf), 3int,
{
    if i < 0 || i > s.len() {
        Err(MailError::Parse)
    } else {
        let (ct2, mf2) = spec_take_content_type(ct, mf);
        proof {
            lemma_take_content_type(ct, mf);
            lemma_default_body_types();
        }
        let c = match ct2 {
            Some(c) => c,
            None => if dt == 0 { content_text_view() } else { content_message_view() },
        };
        let bt = spec_body_type(c);
        if bt < 0 {
            Err(MailError::Inval)
        } else {
            let enc = match mf2 {
                Some(f) => spec_transfer_encoding(f),
                None => 2i32,
            };
            let bt2 = if bt == 3 && (enc == 4 || enc == 5) { 1i32 } else { bt };
            let body = text_data(enc, s.subrange(i, s.len() as int));
            let data: Result<MimeBodyView, MailError> = if bt2 == 3 {
                match spec_message_header(s, i) {
                    Err(x) => Err(x),
                    Ok((f, e)) => match spec_opt_crlf(s, e) {
                        Err(x) => Err(x),
                        Ok(e2) => {
                            let subr: Result<Option<Seq<MimeFieldView>>, MailError> = match spec_mime_fields(f) {
                                Ok(l) => Ok(Some(l)),
                                Err(MailError::Parse) => Ok(None),
                                Err(x) => Err(x),
                            };
                            match subr {
                                Err(x) => Err(x),
                                Ok(sub) => if i <= e2 <= s.len() && (e2 > i || sub is None) {
                                    match spec_parse_with_default(s, e2, 0, None, sub) {
                                        Ok((m, _)) => Ok(MimeBodyView::Message(Some(spec_remove_unparsed(f)), Some(Box::new(m)))),
                                        Err(MailError::Parse) => Ok(MimeBodyView::Message(Some(spec_remove_unparsed(f)), None)),
                                        Err(x) => Err(x),
                                    }
                                } else {
                                    Err(MailError::Parse)
                                },
                            }
                        },
                    },
                }
            } else if bt2 == 2 {
                let dsub: i32 = if spec_ci_seq_eq(c.subtype, subtype_digest()) { 1 } else { 0 };
                match spec_boundary(c) {
                    Some(b) => match spec_multipart_body(s, i, b, dsub) {
                        Ok((list, pre, epi)) => Ok(MimeBodyView::Multiple(pre, epi, list)),
                        Err(MailError::Parse) => Ok(MimeBodyView::Multiple(None, None, Seq::empty())),
                        Err(x) => Err(x),
                    },
                    None => Ok(MimeBodyView::Single),
                }
            } else {
                Ok(MimeBodyView::Single)
            };
            match data {
                Err(x) => Err(x),
                Ok(d) => Ok((MimeView { length: s.len() as int, fields: mf2, content: c, body, data: d }, s.len() as int)),
            }
        }
    }
}

/// Reads a part from its own bytes (see `spec_part`).
fn part_structure_parse(d: &[u8], dsub: i32) -> (r: Result<mailmime, MailError>)
    ensures
        match (r, spec_part(d@, dsub)) {
            (Ok(m), Ok(mv)) => m@ == mv,
            (Err(x), Err(y)) => x == y,
            _ => false,
        },
    decreases d@.len(), 2int, 0int,
{
    let (f, e) = part_header(d)?;
    let e2 = opt_crlf(d, e)?;
    proof {
        lemma_mime_fields_nonempty(f@);
    }
    let sub = match mailmime_fields_parse(&f) {
        Ok(l) => Some(l),
        Err(MailError::Parse) => None,
        Err(x) => return Err(x),
    };
    let (m, _) = mailmime_parse_with_default(d, e2, dsub, None, sub)?;
    Ok(m)
}

/// Reads a multipart body with the given boundary (see `spec_multipart_body`).
/// A multipart body reaches to the end of `message`: on success everything
/// from `indx` on is read (the parts, the preamble and the epilogue), so no end
/// position is returned; the caller's cursor moves to `message.len()`.
pub fn mailmime_multipart_body_parse(message: &[u8], indx: usize, boundary: &[u8], default_subtype: i32) -> (r: Result<(Vec<mailmime>, Option<mailmime_data>, Option<mailmime_data>), MailError>)
    requires
        indx <= message@.len(),
    ensures
        match (r, spec_multipart_body(message@, indx as int, boundary@, default_subtype)) {
            (Ok((l, pre, epi)), Ok((lv, prev, epiv))) => mimes_view(l@) == lv && opt_data_view(pre) == prev && opt_data_view(epi) == epiv,
            (Err(x), Err(y)) => x == y,
            _ => false,
        },
    decreases message@.len() - indx, 2int, 2int,
{
    let ghost s = message@;
    let ghost b = boundary@;
    let len = message.len();
    let (found, pe, cur) = match mailmime_preamble_parse(message, indx, true) {
        Ok(c) => {
            proof {
                lemma_preamble_scan(s, indx as int, 0);
            }
            let (pe, cur) = preamble_loop(message, boundary, c)?;
            (true, pe, cur)
        },
        Err(_) => (false, indx, indx),
    };
    let pend = if found { trim_preamble(message, indx, pe - 2) } else { indx };
    let pb = part_begin(message, cur)?;
    let ghost whole = spec_parts(s, b, default_subtype, pb as int, Seq::empty());
    let mut list: Vec<mailmime> = Vec::new();
    assert(mimes_view(list@) =~= Seq::<MimeView>::empty());
    let mut p: usize = pb;
    let mut c_end: usize = pb;
    loop
        invariant_except_break
            indx <= pb <= p <= len,
            whole == spec_parts(s, b, default_subtype, p as int, mimes_view(list@)),
        invariant
            s == message@,
            b == boundary@,
            len == s.len(),
            indx <= pend <= len,
            whole == spec_parts(s, b, default_subtype, pb as int, Seq::empty()),
            spec_multipart_body(s, indx as int, b, default_subtype) == spec_multipart_finish(s, indx as int, pend as int, whole),
        ensures
            c_end <= len,
            whole == Ok::<(Seq<MimeView>, int), MailError>((mimes_view(list@), c_end as int)),
        decreases len - p,
    {
        let (((beg, n), c), fin) = match mailmime_body_part_dash2_transport_crlf_parse(message, p, boundary) {
            Ok(x) => (x, false),
            Err(MailError::Parse) => match mailmime_body_part_dash2_close_parse(message, p, boundary) {
                Ok(x) => (x, true),
                Err(y) => return Err(y),
            },
            Err(y) => return Err(y),
        };
        proof {
                }
        let d = vstd::slice::slice_subrange(message, p, p + n);
        match part_structure_parse(d, default_subtype) {
            Ok(m) => {
                let ghost l0 = list@;
                let ghost mv = m@;
                list.push(m);
                assert(mimes_view(list@) =~= mimes_view(l0).push(mv));
                let c2 = match mailmime_multipart_next_parse(message, c) {
                    Ok(q) => q,
                    Err(_) => c,
                };
                if fin {
                    c_end = c2;
                    break;
                }
                p = c2;
            },
            Err(MailError::Parse) => {
                c_end = c;
                break;
            },
            Err(x) => return Err(x),
        }
    }
    let c2 = skip_lwsp(message, c_end);
    let eb = match mailimf_crlf_parse(message, c2) {
        Ok(c3) => c3,
        Err(MailError::Parse) => len,
        Err(x) => return Err(x),
    };
    let pre = if pend - indx != 0 { Some(mailmime_data_new(0, 2, 1, copy_range(message, indx, pend))) } else { None };
    let epi = if len - eb != 0 { Some(mailmime_data_new(0, 2, 1, copy_range(message, eb, len))) } else { None };
    Ok((list, pre, epi))
}

/// Reads a part from `indx` on (see `spec_parse_with_default`).
#[verifier::rlimit(40)]
pub fn mailmime_parse_with_default(message: &[u8], indx: usize, default_type: i32, content_type: Option<mailmime_content>, mime_fields: Option<mailmime_fields>) -> (r: Result<(mailmime, usize), MailError>)
    requires
        indx <= message@.len(),
    ensures
        match (r, spec_parse_with_default(message@, indx as int, default_type, opt_content_view(content_type), opt_mime_fields_view(mime_fields))) {
            (Ok((m, j)), Ok((mv, k))) => m@ == mv && j == k,
            (Err(x), Err(y)) => x == y,
            _ => false,
        },
        r matches Ok((_, j)) ==> j == message@.len(),
    decreases message@.len() - indx, spec_tag(default_type, opt_content_view(content_type), opt_mime_fields_view(mime_fields)), 3int,
{
    let ghost ctv = opt_content_view(content_type);
    let ghost mfv = opt_mime_fields_view(mime_fields);
    let len = message.len();
    let (ct2, mf2) = take_content_type(content_type, mime_fields);
    proof {
        lemma_take_content_type(ctv, mfv);
        lemma_default_body_types();
    }
    let c = match ct2 {
        Some(c) => c,
        None => if default_type == 0 { mailmime_get_content_text() } else { mailmime_get_content_message() },
    };
    let (bt, boundary) = body_type(&c);
    if bt < 0 {
        return Err(MailError::Inval);
    }
    let enc = match &mf2 {
        Some(f) => mailmime_transfer_encoding_get(f),
        None => 2,
    };
    let bt2 = if bt == 3 && (enc == 4 || enc == 5) { 1 } else { bt };
    let body = mailmime_data_new(0, enc, 1, copy_range(message, indx, len));
    let data = if bt2 == 3 {
        let (f, e) = message_header(message, indx)?;
        let e2 = opt_crlf(message, e)?;
        proof {
            lemma_mime_fields_nonempty(f@);
        }
        let sub = match mailmime_fields_parse(&f) {
            Ok(l) => Some(l),
            Err(MailError::Parse) => None,
            Err(x) => return Err(x),
        };
        let kept = remove_unparsed_mime_headers(f);
        let msg = match mailmime_parse_with_default(message, e2, 0, None, sub) {
            Ok((m, _)) => Some(Box::new(m)),
            Err(MailError::Parse) => None,
            Err(x) => return Err(x),
        };
        MimeBody::Message { mm_fields: Some(kept), mm_msg_mime: msg }
    } else if bt2 == 2 {
        let digest: [u8; 6] = [100, 105, 103, 101, 115, 116];
        assert(digest@ == subtype_digest());
        let dsub: i32 = if ci_seq_eq(c.ct_subtype.as_slice(), &digest) { 1 } else { 0 };
        match boundary {
            Some(b) => match mailmime_multipart_body_parse(message, indx, b.as_slice(), dsub) {
                Ok((list, pre, epi)) => MimeBody::Multiple { mm_preamble: pre, mm_epilogue: epi, mm_mp_list: list },
                Err(MailError::Parse) => {
                    let empty: Vec<mailmime> = Vec::new();
                    assert(mimes_view(empty@) =~= Seq::<MimeView>::empty());
                    MimeBody::Multiple { mm_preamble: None, mm_epilogue: None, mm_mp_list: empty }
                },
                Err(x) => return Err(x),
            },
            None => MimeBody::Single,
        }
    } else {
        MimeBody::Single
    };
    let m = mailmime { mm_length: len, mm_mime_fields: mf2, mm_content_type: c, mm_body: body, mm_data: data };
    proof {
        lemma_mime_view(m);
    }
    Ok((m, len))
}

/// Reads the MIME structure of a message, from `indx` to the end of the
/// bytes: the message is read as a message/rfc822 part, with no MIME fields.
pub open spec fn spec_mailmime_parse(s: Seq<u8>, i: int) -> Result<(MimeView, int), MailError> {
    match spec_parse_with_default(s.subrange(i, s.len() as int), 0, 0, Some(content_message_view()), Some(Seq::empty())) {
        Ok((m, k)) => Ok((m, i + k)),
        Err(x) => Err(x),
    }
}

/// A message is read to the end of its bytes: on success the cursor is at
/// the end, and the top part's length and body cover every byte from `i` on.
pub proof fn law_mailmime_parse_reads_to_end(s: Seq<u8>, i: int)
    requires
        0 <= i <= s.len(),
    ensures
        spec_mailmime_parse(s, i) matches Ok((m, k)) ==> k == s.len() && m.length == s.len() - i
            && m.body.data == s.subrange(i, s.len() as int),
{
    let t = s.subrange(i, s.len() as int);
    assert(t.subrange(0, t.len() as int) =~= t);
}

pub fn mailmime_parse(message: &[u8], indx: usize) -> (r: Result<(mailmime, usize), MailError>)
    requires
        indx <= message@.len(),
    ensures
        match (r, spec_mailmime_parse(message@, indx as int)) {
            (Ok((m, j)), Ok((mv, k))) => m@ == mv && j == k,
            (Err(x), Err(y)) => x == y,
            _ => false,
        },
{
    let content = mailmime_get_content_message();
    let fields = mailmime_fields_new_empty();
    let data = vstd::slice::slice_subrange(message, indx, message.len());
    let (m, bp) = mailmime_parse_with_default(data, 0, 0, Some(content), Some(fields))?;
    Ok((m, indx + bp))
}

} // verus!
