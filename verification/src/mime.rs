//! The MIME structure of a message (RFC 2045, 2046): a tree of parts, each
//! single, multipart or an enclosed message.

use vstd::prelude::*;
use crate::MailError;
use crate::lex::{spec_ci_prefix, spec_crlf, mailimf_crlf_parse};
use crate::encoded_word::{spec_ci_seq_eq, ci_seq_eq};
use crate::fields::OptionalFieldView;
use crate::header::{mailimf_field, mailimf_fields, FieldView, FieldMode, fields_view,
    spec_fields_m, spec_fields_rest, spec_field_m, mailimf_envelope_and_optional_fields_parse,
    mailimf_optional_fields_parse, mailimf_fields_new};
use crate::mime_fields::{mailmime_content, ContentView, MimeTypeView, spec_boundary,
    spec_lone_quote_boundary, mailmime_extract_boundary, mailmime_get_content_text,
    mailmime_get_content_message, subtype_plain, subtype_rfc822};
use crate::mime_header::{mailmime_field, mailmime_fields, MimeFieldView, mime_fields_view,
    spec_mime_fields, spec_mime_fields_rest, spec_transfer_encoding, mailmime_fields_parse,
    mailmime_transfer_encoding_get, mailmime_fields_new};
use crate::mime_scan::{spec_preamble_scan, spec_boundary_at, spec_skip_lwsp, spec_lwsp,
    spec_next_scan, spec_transport, spec_dash2_close, mailmime_preamble_parse,
    mailmime_boundary_parse, skip_lwsp, mailmime_lwsp_parse, mailmime_multipart_next_parse,
    mailmime_body_part_dash2_transport_crlf_parse, mailmime_body_part_dash2_close_parse};

verus! {

pub const MAILMIME_NONE: i32 = 0;
pub const MAILMIME_SINGLE: i32 = 1;
pub const MAILMIME_MULTIPLE: i32 = 2;
pub const MAILMIME_MESSAGE: i32 = 3;

pub const MAILMIME_DATA_TEXT: i32 = 0;
pub const MAILMIME_DATA_FILE: i32 = 1;

pub const MAILMIME_DEFAULT_TYPE_TEXT_PLAIN: i32 = 0;
pub const MAILMIME_DEFAULT_TYPE_MESSAGE: i32 = 1;

/// Bytes of a part, with the transfer encoding that they are in.
#[allow(non_camel_case_types)]
pub struct mailmime_data {
    pub dt_type: i32,
    pub dt_encoding: i32,
    pub dt_encoded: i32,
    pub dt_data: Vec<u8>,
}

pub struct DataView {
    pub ty: i32,
    pub encoding: i32,
    pub encoded: i32,
    pub data: Seq<u8>,
}

impl View for mailmime_data {
    type V = DataView;

    open spec fn view(&self) -> DataView {
        DataView { ty: self.dt_type, encoding: self.dt_encoding, encoded: self.dt_encoded, data: self.dt_data@ }
    }
}

pub open spec fn opt_data_view(o: Option<mailmime_data>) -> Option<DataView> {
    match o {
        Some(d) => Some(d@),
        None => None,
    }
}

pub fn mailmime_data_new(dt_type: i32, dt_encoding: i32, dt_encoded: i32, dt_data: Vec<u8>) -> (d: mailmime_data)
    ensures
        d@ == (DataView { ty: dt_type, encoding: dt_encoding, encoded: dt_encoded, data: dt_data@ }),
{
    mailmime_data { dt_type, dt_encoding, dt_encoded, dt_data }
}

/// What a part holds besides its body: nothing more, parts, or a message.
pub enum MimeBody {
    Single,
    Multiple {
        mm_preamble: Option<mailmime_data>,
        mm_epilogue: Option<mailmime_data>,
        mm_mp_list: Vec<mailmime>,
    },
    Message {
        mm_fields: Option<mailimf_fields>,
        mm_msg_mime: Option<Box<mailmime>>,
    },
}

/// A MIME part: the length of the bytes it was read from, its MIME fields, its
/// content type, its body (the bytes after its header) and what it holds.
#[allow(non_camel_case_types)]
pub struct mailmime {
    pub mm_length: usize,
    pub mm_mime_fields: Option<mailmime_fields>,
    pub mm_content_type: mailmime_content,
    pub mm_body: mailmime_data,
    pub mm_data: MimeBody,
}

pub enum MimeBodyView {
    Single,
    Multiple(Option<DataView>, Option<DataView>, Seq<MimeView>),
    Message(Option<Seq<FieldView>>, Option<Box<MimeView>>),
}

pub struct MimeView {
    pub length: int,
    pub fields: Option<Seq<MimeFieldView>>,
    pub content: ContentView,
    pub body: DataView,
    pub data: MimeBodyView,
}

pub open spec fn opt_mime_fields_view(o: Option<mailmime_fields>) -> Option<Seq<MimeFieldView>> {
    match o {
        Some(f) => Some(f@),
        None => None,
    }
}

pub open spec fn opt_fields_view(o: Option<mailimf_fields>) -> Option<Seq<FieldView>> {
    match o {
        Some(f) => Some(f@),
        None => None,
    }
}

pub open spec fn opt_content_view(o: Option<mailmime_content>) -> Option<ContentView> {
    match o {
        Some(c) => Some(c@),
        None => None,
    }
}

pub open spec fn mime_view(m: mailmime) -> MimeView
    decreases m,
{
    MimeView {
        length: m.mm_length as int,
        fields: opt_mime_fields_view(m.mm_mime_fields),
        content: m.mm_content_type@,
        body: m.mm_body@,
        data: match m.mm_data {
            MimeBody::Single => MimeBodyView::Single,
            MimeBody::Multiple { mm_preamble, mm_epilogue, mm_mp_list } => MimeBodyView::Multiple(
                opt_data_view(mm_preamble),
                opt_data_view(mm_epilogue),
                Seq::new(mm_mp_list@.len(), |k: int| if 0 <= k < mm_mp_list@.len() { mime_view(mm_mp_list@[k]) } else { vstd::pervasive::arbitrary() }),
            ),
            MimeBody::Message { mm_fields, mm_msg_mime } => MimeBodyView::Message(
                opt_fields_view(mm_fields),
                match mm_msg_mime {
                    Some(b) => Some(Box::new(mime_view(*b))),
                    None => None,
                },
            ),
        },
    }
}

impl View for mailmime {
    type V = MimeView;

    open spec fn view(&self) -> MimeView {
        mime_view(*self)
    }
}

pub open spec fn mimes_view(v: Seq<mailmime>) -> Seq<MimeView> {
    Seq::new(v.len(), |k: int| if 0 <= k < v.len() { mime_view(v[k]) } else { vstd::pervasive::arbitrary() })
}

/// What a part holds, seen through the views of its pieces.
pub open spec fn body_view(d: MimeBody) -> MimeBodyView {
    match d {
        MimeBody::Single => MimeBodyView::Single,
        MimeBody::Multiple { mm_preamble, mm_epilogue, mm_mp_list } => MimeBodyView::Multiple(
            opt_data_view(mm_preamble),
            opt_data_view(mm_epilogue),
            mimes_view(mm_mp_list@),
        ),
        MimeBody::Message { mm_fields, mm_msg_mime } => MimeBodyView::Message(
            opt_fields_view(mm_fields),
            match mm_msg_mime {
                Some(b) => Some(Box::new(mime_view(*b))),
                None => None,
            },
        ),
    }
}

pub proof fn lemma_mime_view(m: mailmime)
    ensures
        mime_view(m) == (MimeView {
            length: m.mm_length as int,
            fields: opt_mime_fields_view(m.mm_mime_fields),
            content: m.mm_content_type@,
            body: m.mm_body@,
            data: body_view(m.mm_data),
        }),
{
    if let MimeBody::Multiple { mm_preamble, mm_epilogue, mm_mp_list } = m.mm_data {
        if let MimeBodyView::Multiple(_, _, ls) = mime_view(m).data {
            assert(ls =~= mimes_view(mm_mp_list@));
        }
    }
}

/// The kind of a part (`MAILMIME_SINGLE`, `MAILMIME_MULTIPLE` or `MAILMIME_MESSAGE`).
pub open spec fn spec_mime_type(d: MimeBodyView) -> i32 {
    match d {
        MimeBodyView::Single => MAILMIME_SINGLE,
        MimeBodyView::Multiple(_, _, _) => MAILMIME_MULTIPLE,
        MimeBodyView::Message(_, _) => MAILMIME_MESSAGE,
    }
}

impl mailmime {
    /// The kind of the part.
    pub fn mm_type(&self) -> (t: i32)
        ensures
            t == spec_mime_type(self@.data),
    {
        match &self.mm_data {
            MimeBody::Single => MAILMIME_SINGLE,
            MimeBody::Multiple { .. } => MAILMIME_MULTIPLE,
            MimeBody::Message { .. } => MAILMIME_MESSAGE,
        }
    }
}

pub proof fn lemma_fields_rest(s: Seq<u8>, p: int, acc: Seq<FieldView>, m: FieldMode)
    requires
        0 <= p <= s.len(),
    ensures
        spec_fields_rest(s, p, acc, m) matches Ok((l, e)) ==> p <= e <= s.len() && acc.len() <= l.len() && (e == p ==> l.len() == acc.len()),
    decreases s.len() - p,
{
    if let Ok((f, e)) = spec_field_m(s, p, m) {
        if 0 <= p < e <= s.len() {
            lemma_fields_rest(s, e, acc.push(f), m);
        }
    }
}

/// A header from which MIME fields are read is not empty.
pub proof fn lemma_mime_fields_nonempty(fs: Seq<FieldView>)
    ensures
        spec_mime_fields(fs) is Ok ==> fs.len() > 0,
{
    if fs.len() == 0 {
        assert(spec_mime_fields_rest(fs, 0, Seq::empty()) == Ok::<Seq<MimeFieldView>, MailError>(Seq::empty()));
    }
}

/// A field that the MIME fields already hold, left out of a message's header.
pub open spec fn spec_unparsed_name(n: Seq<u8>) -> bool {
    if spec_ci_prefix(n, 0, seq![67u8, 111u8, 110u8, 116u8, 101u8, 110u8, 116u8, 45u8]) {
        let r = n.subrange(8, n.len() as int);
        spec_ci_seq_eq(r, seq![84u8, 121u8, 112u8, 101u8])
            || spec_ci_seq_eq(r, seq![84u8, 114u8, 97u8, 110u8, 115u8, 102u8, 101u8, 114u8, 45u8, 69u8, 110u8, 99u8, 111u8, 100u8, 105u8, 110u8, 103u8])
            || spec_ci_seq_eq(r, seq![73u8, 68u8])
            || spec_ci_seq_eq(r, seq![68u8, 101u8, 115u8, 99u8, 114u8, 105u8, 112u8, 116u8, 105u8, 111u8, 110u8])
            || spec_ci_seq_eq(r, seq![68u8, 105u8, 115u8, 112u8, 111u8, 115u8, 105u8, 116u8, 105u8, 111u8, 110u8])
            || spec_ci_seq_eq(r, seq![76u8, 97u8, 110u8, 103u8, 117u8, 97u8, 103u8, 101u8])
    } else {
        spec_ci_seq_eq(n, seq![77u8, 73u8, 77u8, 69u8, 45u8, 86u8, 101u8, 114u8, 115u8, 105u8, 111u8, 110u8])
    }
}

pub open spec fn spec_unparsed_field(f: FieldView) -> bool {
    match f {
        FieldView::OptionalField(of) => spec_unparsed_name(of.name),
        _ => false,
    }
}

/// The first `n` fields, without those that the MIME fields hold.
pub open spec fn spec_keep_parsed(fs: Seq<FieldView>, n: int) -> Seq<FieldView>
    decreases n,
{
    if n <= 0 {
        Seq::empty()
    } else {
        let sub = spec_keep_parsed(fs, n - 1);
        if spec_unparsed_field(fs[n - 1]) { sub } else { sub.push(fs[n - 1]) }
    }
}

pub open spec fn spec_remove_unparsed(fs: Seq<FieldView>) -> Seq<FieldView> {
    spec_keep_parsed(fs, fs.len() as int)
}

fn unparsed_name(n: &[u8]) -> (b: bool)
    ensures
        b == spec_unparsed_name(n@),
{
    let pre: [u8; 8] = [67, 111, 110, 116, 101, 110, 116, 45];
    let t_type: [u8; 4] = [84, 121, 112, 101];
    let t_te: [u8; 17] = [84, 114, 97, 110, 115, 102, 101, 114, 45, 69, 110, 99, 111, 100, 105, 110, 103];
    let t_id: [u8; 2] = [73, 68];
    let t_desc: [u8; 11] = [68, 101, 115, 99, 114, 105, 112, 116, 105, 111, 110];
    let t_disp: [u8; 11] = [68, 105, 115, 112, 111, 115, 105, 116, 105, 111, 110];
    let t_lang: [u8; 8] = [76, 97, 110, 103, 117, 97, 103, 101];
    let t_ver: [u8; 12] = [77, 73, 77, 69, 45, 86, 101, 114, 115, 105, 111, 110];
    assert(pre@ == seq![67u8, 111u8, 110u8, 116u8, 101u8, 110u8, 116u8, 45u8]);
    assert(t_type@ == seq![84u8, 121u8, 112u8, 101u8]);
    assert(t_te@ == seq![84u8, 114u8, 97u8, 110u8, 115u8, 102u8, 101u8, 114u8, 45u8, 69u8, 110u8, 99u8, 111u8, 100u8, 105u8, 110u8, 103u8]);
    assert(t_id@ == seq![73u8, 68u8]);
    assert(t_desc@ == seq![68u8, 101u8, 115u8, 99u8, 114u8, 105u8, 112u8, 116u8, 105u8, 111u8, 110u8]);
    assert(t_disp@ == seq![68u8, 105u8, 115u8, 112u8, 111u8, 115u8, 105u8, 116u8, 105u8, 111u8, 110u8]);
    assert(t_lang@ == seq![76u8, 97u8, 110u8, 103u8, 117u8, 97u8, 103u8, 101u8]);
    assert(t_ver@ == seq![77u8, 73u8, 77u8, 69u8, 45u8, 86u8, 101u8, 114u8, 115u8, 105u8, 111u8, 110u8]);
    if n.len() >= 8 && ci_seq_eq(vstd::slice::slice_subrange(n, 0, 8), &pre) {
        assert(spec_ci_prefix(n@, 0, pre@)) by {
            assert forall|k: int| 0 <= k < 8 implies #[trigger] crate::lex::spec_ci_eq(n@[0 + k], pre@[k]) by {
                assert(n@.subrange(0, 8)[k] == n@[k]);
            }
        }
        let r = vstd::slice::slice_subrange(n, 8, n.len());
        ci_seq_eq(r, &t_type) || ci_seq_eq(r, &t_te) || ci_seq_eq(r, &t_id) || ci_seq_eq(r, &t_desc)
            || ci_seq_eq(r, &t_disp) || ci_seq_eq(r, &t_lang)
    } else {
        assert(!spec_ci_prefix(n@, 0, pre@)) by {
            if n@.len() >= 8 && spec_ci_prefix(n@, 0, pre@) {
                assert forall|k: int| 0 <= k < 8 implies #[trigger] crate::lex::spec_ci_eq(n@.subrange(0, 8)[k], pre@[k]) by {
                    assert(crate::lex::spec_ci_eq(n@[0 + k], pre@[k]));
                }
                assert(spec_ci_seq_eq(n@.subrange(0, 8), pre@));
            }
        }
        ci_seq_eq(n, &t_ver)
    }
}

fn unparsed_field(f: &mailimf_field) -> (b: bool)
    ensures
        b == spec_unparsed_field(f@),
{
    match f {
        mailimf_field::OptionalField(of) => unparsed_name(of.fld_name.as_slice()),
        _ => false,
    }
}

/// Takes out of a message's header the fields that its MIME fields hold.
pub fn remove_unparsed_mime_headers(fields: mailimf_fields) -> (r: mailimf_fields)
    ensures
        r@ == spec_remove_unparsed(fields@),
{
    let ghost fs = fields@;
    let ghost n = fs.len();
    let mut src = fields.fld_list;
    let mut out: Vec<mailimf_field> = Vec::new();
    let ghost mut k: int = 0;
    assert(fields_view(src@) =~= fs.subrange(0, n as int));
    assert(fields_view(out@) =~= spec_keep_parsed(fs, 0));
    while src.len() > 0
        invariant
            n == fs.len(),
            0 <= k <= n,
            src@.len() == n - k,
            fields_view(src@) =~= fs.subrange(k, n as int),
            fields_view(out@) == spec_keep_parsed(fs, k),
        decreases src@.len(),
    {
        let ghost s0 = src@;
        let f = src.remove(0);
        assert(f@ == fs[k]) by {
            assert(fields_view(s0)[0] == fs.subrange(k, n as int)[0]);
        }
        assert(fields_view(src@) =~= fs.subrange(k + 1, n as int)) by {
            assert forall|m: int| 0 <= m < src@.len() implies fields_view(src@)[m] == fs.subrange(k + 1, n as int)[m] by {
                assert(src@[m] == s0[m + 1]);
                assert(fields_view(s0)[m + 1] == fs.subrange(k, n as int)[m + 1]);
            }
        }
        if !unparsed_field(&f) {
            let ghost o0 = out@;
            let ghost fv = f@;
            out.push(f);
            assert(fields_view(out@) =~= fields_view(o0).push(fv));
        }
        proof {
            k = k + 1;
        }
    }
    mailimf_fields_new(out)
}


/// A new part of kind `mm_type` (`MAILMIME_SINGLE`, `MAILMIME_MULTIPLE` or
/// `MAILMIME_MESSAGE`): what it holds is taken from the arguments of that
/// kind. None for another kind.
pub fn mailmime_new(
    mm_type: i32,
    mm_length: usize,
    mm_mime_fields: Option<mailmime_fields>,
    mm_content_type: mailmime_content,
    mm_body: mailmime_data,
    mm_preamble: Option<mailmime_data>,
    mm_epilogue: Option<mailmime_data>,
    mm_mp_list: Vec<mailmime>,
    mm_fields: Option<mailimf_fields>,
    mm_msg_mime: Option<mailmime>,
) -> (m: Option<mailmime>)
    ensures
        (1 <= mm_type <= 3) == m is Some,
        m matches Some(p) ==> {
            &&& p.mm_length == mm_length
            &&& p.mm_mime_fields == mm_mime_fields
            &&& p.mm_content_type == mm_content_type
            &&& p.mm_body == mm_body
            &&& spec_mime_type(p@.data) == mm_type
            &&& (mm_type == MAILMIME_MULTIPLE ==> p.mm_data == (MimeBody::Multiple { mm_preamble, mm_epilogue, mm_mp_list }))
            &&& (mm_type == MAILMIME_MESSAGE ==> p.mm_data == (MimeBody::Message { mm_fields, mm_msg_mime: match mm_msg_mime { Some(x) => Some(Box::new(x)), None => None } }))
        },
{
    let data = if mm_type == MAILMIME_SINGLE {
        MimeBody::Single
    } else if mm_type == MAILMIME_MULTIPLE {
        MimeBody::Multiple { mm_preamble, mm_epilogue, mm_mp_list }
    } else if mm_type == MAILMIME_MESSAGE {
        let sub = match mm_msg_mime {
            Some(x) => Some(Box::new(x)),
            None => None,
        };
        MimeBody::Message { mm_fields, mm_msg_mime: sub }
    } else {
        return None;
    };
    Some(mailmime { mm_length, mm_mime_fields, mm_content_type, mm_body, mm_data: data })
}

/// A list of bodies.
#[allow(non_camel_case_types)]
pub struct mailmime_multipart_body {
    pub bd_list: Vec<crate::header::mailimf_body>,
}

/// A new list of bodies.
pub fn mailmime_multipart_body_new(bd_list: Vec<crate::header::mailimf_body>) -> (b: mailmime_multipart_body)
    ensures
        b.bd_list == bd_list,
{
    mailmime_multipart_body { bd_list }
}

} // verus!
