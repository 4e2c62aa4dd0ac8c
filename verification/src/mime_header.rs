//! The MIME fields of a header: each optional field whose name is a MIME
//! field name is read into a typed MIME field.

use vstd::prelude::*;
use crate::MailError;
use crate::res_view;
use crate::chars::{CharClass, spec_to_upper, to_upper};
use crate::lex::{lemma_ci_prefix_byte, spec_ci_eq, spec_skip_cfws, spec_unstrict_char, spec_token_ci, spec_custom_string,
    spec_number, spec_ci_prefix, skip_cfws, mailimf_unstrict_char_parse,
    mailimf_token_case_insensitive_len_parse, mailimf_custom_string_parse, mailimf_number_parse};
use crate::words::{spec_atom, mailimf_atom_parse};
use crate::msgid::{spec_msg_id, mailimf_msg_id_parse};
use crate::address::opt_bytes_view;
use crate::encoded_word::{spec_ci_seq_eq, ci_seq_eq, spec_encoded_phrase, mailmime_encoded_phrase_parse};
use crate::fields::{mailimf_optional_field, OptionalFieldView};
use crate::header::{mailimf_field, mailimf_fields, FieldView};
use crate::mime_fields::{mailmime_content, ContentView, spec_content, spec_mime_token,
    mailmime_content_parse, mailmime_token_parse, MAILMIME_MECHANISM_8BIT, charset_us_ascii};
use crate::mime_disposition::{mailmime_disposition, DispositionView, spec_disposition,
    mailmime_disposition_parse};

verus! {

pub const MAILMIME_FIELD_NONE: i32 = 0;
pub const MAILMIME_FIELD_TYPE: i32 = 1;
pub const MAILMIME_FIELD_TRANSFER_ENCODING: i32 = 2;
pub const MAILMIME_FIELD_ID: i32 = 3;
pub const MAILMIME_FIELD_DESCRIPTION: i32 = 4;
pub const MAILMIME_FIELD_VERSION: i32 = 5;
pub const MAILMIME_FIELD_DISPOSITION: i32 = 6;
pub const MAILMIME_FIELD_LANGUAGE: i32 = 7;
pub const MAILMIME_FIELD_LOCATION: i32 = 8;

/// A transfer encoding: its number, and the token when it is not a known one.
#[allow(non_camel_case_types)]
pub struct mailmime_mechanism {
    pub enc_type: i32,
    pub enc_token: Option<Vec<u8>>,
}

impl View for mailmime_mechanism {
    type V = (i32, Option<Seq<u8>>);

    open spec fn view(&self) -> (i32, Option<Seq<u8>>) {
        (self.enc_type, opt_bytes_view(self.enc_token))
    }
}

pub fn mailmime_mechanism_new(enc_type: i32, enc_token: Option<Vec<u8>>) -> (m: mailmime_mechanism)
    ensures
        m@ == (enc_type, opt_bytes_view(enc_token)),
{
    mailmime_mechanism { enc_type, enc_token }
}

pub open spec fn mech_name(t: i32) -> Seq<u8> {
    if t == 1 {
        seq![55u8, 98u8, 105u8, 116u8]
    } else if t == 2 {
        seq![56u8, 98u8, 105u8, 116u8]
    } else if t == 3 {
        seq![98u8, 105u8, 110u8, 97u8, 114u8, 121u8]
    } else if t == 4 {
        seq![113u8, 117u8, 111u8, 116u8, 101u8, 100u8, 45u8, 112u8, 114u8, 105u8, 110u8, 116u8, 97u8, 98u8, 108u8, 101u8]
    } else {
        seq![98u8, 97u8, 115u8, 101u8, 54u8, 52u8]
    }
}

/// mechanism: the first of `7bit`, `8bit`, `binary`, `quoted-printable`,
/// `base64` that the bytes start with (case aside), else a token.
pub open spec fn spec_mechanism(s: Seq<u8>, i: int) -> Result<((i32, Option<Seq<u8>>), int), MailError> {
    if let Ok(j) = spec_token_ci(s, i, mech_name(1)) {
        Ok(((1i32, None), j))
    } else if let Ok(j) = spec_token_ci(s, i, mech_name(2)) {
        Ok(((2i32, None), j))
    } else if let Ok(j) = spec_token_ci(s, i, mech_name(3)) {
        Ok(((3i32, None), j))
    } else if let Ok(j) = spec_token_ci(s, i, mech_name(4)) {
        Ok(((4i32, None), j))
    } else if let Ok(j) = spec_token_ci(s, i, mech_name(5)) {
        Ok(((5i32, None), j))
    } else {
        match spec_mime_token(s, i) {
            Ok((t, j)) => Ok(((6i32, Some(t)), j)),
            Err(x) => Err(x),
        }
    }
}

/// Reads a Content-Transfer-Encoding value.
pub fn mailmime_encoding_parse(message: &[u8], indx: usize) -> (r: Result<(mailmime_mechanism, usize), MailError>)
    requires
        indx <= message@.len(),
    ensures
        res_view(r) == spec_mechanism(message@, indx as int),
        r matches Ok((_, j)) ==> indx < j <= message@.len(),
{
    let m7: [u8; 4] = [55, 98, 105, 116];
    let m8: [u8; 4] = [56, 98, 105, 116];
    let mbin: [u8; 6] = [98, 105, 110, 97, 114, 121];
    let mqp: [u8; 16] = [113, 117, 111, 116, 101, 100, 45, 112, 114, 105, 110, 116, 97, 98, 108, 101];
    let mb64: [u8; 6] = [98, 97, 115, 101, 54, 52];
    assert(m7@ == mech_name(1));
    assert(m8@ == mech_name(2));
    assert(mbin@ == mech_name(3));
    assert(mqp@ == mech_name(4));
    assert(mb64@ == mech_name(5));
    if let Ok(j) = mailimf_token_case_insensitive_len_parse(message, indx, &m7) {
        return Ok((mailmime_mechanism_new(1, None), j));
    }
    if let Ok(j) = mailimf_token_case_insensitive_len_parse(message, indx, &m8) {
        return Ok((mailmime_mechanism_new(2, None), j));
    }
    if let Ok(j) = mailimf_token_case_insensitive_len_parse(message, indx, &mbin) {
        return Ok((mailmime_mechanism_new(3, None), j));
    }
    if let Ok(j) = mailimf_token_case_insensitive_len_parse(message, indx, &mqp) {
        return Ok((mailmime_mechanism_new(4, None), j));
    }
    if let Ok(j) = mailimf_token_case_insensitive_len_parse(message, indx, &mb64) {
        return Ok((mailmime_mechanism_new(5, None), j));
    }
    let (t, j) = mailmime_token_parse(message, indx)?;
    Ok((mailmime_mechanism_new(6, Some(t)), j))
}

/// Content-Description: a non-empty run of bytes other than NUL, CR and LF.
pub fn mailmime_description_parse(message: &[u8], indx: usize) -> (r: Result<(Vec<u8>, usize), MailError>)
    requires
        indx <= message@.len(),
    ensures
        res_view(r) == spec_custom_string(message@, indx as int, CharClass::Text),
        r matches Ok((_, j)) ==> indx < j <= message@.len(),
{
    mailimf_custom_string_parse(message, indx, CharClass::Text)
}

/// Content-Location: a non-empty run of bytes other than NUL, CR and LF.
pub fn mailmime_location_parse(message: &[u8], indx: usize) -> (r: Result<(Vec<u8>, usize), MailError>)
    requires
        indx <= message@.len(),
    ensures
        res_view(r) == spec_custom_string(message@, indx as int, CharClass::Text),
        r matches Ok((_, j)) ==> indx < j <= message@.len(),
{
    mailimf_custom_string_parse(message, indx, CharClass::Text)
}

/// Content-ID: a message id.
pub fn mailmime_id_parse(message: &[u8], indx: usize) -> (r: Result<(Vec<u8>, usize), MailError>)
    requires
        indx <= message@.len(),
    ensures
        res_view(r) == spec_msg_id(message@, indx as int),
        r matches Ok((_, j)) ==> indx < j <= message@.len(),
{
    mailimf_msg_id_parse(message, indx)
}

/// The version number of `hi.low`: `hi` in the upper 16 bits, added to `low`,
/// modulo 2^32.
pub open spec fn spec_version_number(hi: u32, low: u32) -> u32 {
    ((hi * 65536 + low) % 4294967296) as u32
}

/// MIME-Version: a number, `.`, a number.
pub open spec fn spec_version(s: Seq<u8>, i: int) -> Result<(u32, int), MailError> {
    match spec_number(s, i) {
        Err(x) => Err(x),
        Ok((hi, j)) => match spec_unstrict_char(s, j, 46) {
            Err(x) => Err(x),
            Ok(k) => match spec_number(s, spec_skip_cfws(s, k)) {
                Err(x) => Err(x),
                Ok((low, e)) => Ok((spec_version_number(hi, low), e)),
            },
        },
    }
}

pub fn mailmime_version_parse(message: &[u8], indx: usize) -> (r: Result<(u32, usize), MailError>)
    requires
        indx <= message@.len(),
    ensures
        res_view(r) == spec_version(message@, indx as int),
        r matches Ok((_, j)) ==> indx < j <= message@.len(),
{
    let (hi, j) = mailimf_number_parse(message, indx)?;
    let k = mailimf_unstrict_char_parse(message, j, 46)?;
    let k2 = skip_cfws(message, k);
    let (low, e) = mailimf_number_parse(message, k2)?;
    let v: u64 = (hi as u64 * 65536 + low as u64) % 4294967296;
    Ok((v as u32, e))
}

/// Languages: the list of language tags.
#[allow(non_camel_case_types)]
pub struct mailmime_language {
    pub lg_list: Vec<Vec<u8>>,
}

impl View for mailmime_language {
    type V = Seq<Seq<u8>>;

    open spec fn view(&self) -> Seq<Seq<u8>> {
        self.lg_list@.map_values(|a: Vec<u8>| a@)
    }
}

pub fn mailmime_language_new(lg_list: Vec<Vec<u8>>) -> (l: mailmime_language)
    ensures
        l.lg_list == lg_list,
{
    mailmime_language { lg_list }
}

/// Atoms, each after a `,`, from `p` on. A `,` that no atom follows is read.
pub open spec fn spec_language_rest(s: Seq<u8>, p: int, acc: Seq<Seq<u8>>) -> Result<(Seq<Seq<u8>>, int), MailError>
    decreases s.len() - p,
{
    match spec_unstrict_char(s, p, 44) {
        Ok(k) => match spec_atom(s, k) {
            Ok((a, e)) => if 0 <= p < e <= s.len() {
                spec_language_rest(s, e, acc.push(a))
            } else {
                Err(MailError::Parse)
            },
            Err(MailError::Parse) => Ok((acc, k)),
            Err(x) => Err(x),
        },
        Err(MailError::Parse) => Ok((acc, p)),
        Err(x) => Err(x),
    }
}

/// Content-Language: one or more atoms, separated by `,`.
pub open spec fn spec_language(s: Seq<u8>, i: int) -> Result<(Seq<Seq<u8>>, int), MailError> {
    match spec_atom(s, i) {
        Ok((a, e)) => spec_language_rest(s, e, seq![a]),
        Err(x) => Err(x),
    }
}

pub fn mailmime_language_parse(message: &[u8], indx: usize) -> (r: Result<(mailmime_language, usize), MailError>)
    requires
        indx <= message@.len(),
    ensures
        res_view(r) == spec_language(message@, indx as int),
        r matches Ok((_, j)) ==> indx <= j <= message@.len(),
{
    let ghost whole = spec_language(message@, indx as int);
    let (first, e0) = mailimf_atom_parse(message, indx)?;
    let ghost fv = first@;
    let mut list: Vec<Vec<u8>> = Vec::new();
    list.push(first);
    assert(list@.map_values(|a: Vec<u8>| a@) =~= seq![fv]);
    let mut cur: usize = e0;
    loop
        invariant
            indx <= cur <= message@.len(),
            whole == spec_language(message@, indx as int),
            whole == spec_language_rest(message@, cur as int, list@.map_values(|a: Vec<u8>| a@)),
        decreases message@.len() - cur,
    {
        let k = match mailimf_unstrict_char_parse(message, cur, 44) {
            Ok(k) => k,
            Err(MailError::Parse) => return Ok((mailmime_language_new(list), cur)),
            Err(x) => return Err(x),
        };
        match mailimf_atom_parse(message, k) {
            Ok((a, e)) => {
                let ghost l0 = list@;
                let ghost av = a@;
                list.push(a);
                assert(list@.map_values(|a: Vec<u8>| a@) =~= l0.map_values(|a: Vec<u8>| a@).push(av));
                cur = e;
            },
            Err(MailError::Parse) => return Ok((mailmime_language_new(list), k)),
            Err(x) => return Err(x),
        }
    }
}

/// A MIME header field.
#[allow(non_camel_case_types)]
pub enum mailmime_field {
    Type(mailmime_content),
    TransferEncoding(mailmime_mechanism),
    Id(Vec<u8>),
    Description(Vec<u8>),
    Version(u32),
    Disposition(mailmime_disposition),
    Language(mailmime_language),
    Location(Vec<u8>),
}

pub enum MimeFieldView {
    Type(ContentView),
    TransferEncoding((i32, Option<Seq<u8>>)),
    Id(Seq<u8>),
    Description(Seq<u8>),
    Version(u32),
    Disposition(DispositionView),
    Language(Seq<Seq<u8>>),
    Location(Seq<u8>),
}

impl View for mailmime_field {
    type V = MimeFieldView;

    open spec fn view(&self) -> MimeFieldView {
        match self {
            mailmime_field::Type(c) => MimeFieldView::Type(c@),
            mailmime_field::TransferEncoding(m) => MimeFieldView::TransferEncoding(m@),
            mailmime_field::Id(v) => MimeFieldView::Id(v@),
            mailmime_field::Description(v) => MimeFieldView::Description(v@),
            mailmime_field::Version(n) => MimeFieldView::Version(*n),
            mailmime_field::Disposition(d) => MimeFieldView::Disposition(d@),
            mailmime_field::Language(l) => MimeFieldView::Language(l@),
            mailmime_field::Location(v) => MimeFieldView::Location(v@),
        }
    }
}

/// The number of a MIME field's kind (one of the `MAILMIME_FIELD_*` constants).
pub open spec fn spec_mime_field_type(f: MimeFieldView) -> i32 {
    match f {
        MimeFieldView::Type(_) => 1,
        MimeFieldView::TransferEncoding(_) => 2,
        MimeFieldView::Id(_) => 3,
        MimeFieldView::Description(_) => 4,
        MimeFieldView::Version(_) => 5,
        MimeFieldView::Disposition(_) => 6,
        MimeFieldView::Language(_) => 7,
        MimeFieldView::Location(_) => 8,
    }
}

impl mailmime_field {
    /// The number of the field's kind.
    pub fn fld_type(&self) -> (t: i32)
        ensures
            t == spec_mime_field_type(self@),
    {
        match self {
            mailmime_field::Type(_) => 1,
            mailmime_field::TransferEncoding(_) => 2,
            mailmime_field::Id(_) => 3,
            mailmime_field::Description(_) => 4,
            mailmime_field::Version(_) => 5,
            mailmime_field::Disposition(_) => 6,
            mailmime_field::Language(_) => 7,
            mailmime_field::Location(_) => 8,
        }
    }
}

pub open spec fn name_content_prefix() -> Seq<u8> {
    seq![67u8, 111u8, 110u8, 116u8, 101u8, 110u8, 116u8, 45u8]
}

/// The kind of MIME field that a field name points to, case aside: a name
/// that starts with `M` is taken for MIME-Version; else the name must start
/// with `Content-` and its next letters decide.
pub open spec fn spec_guess_field_type(name: Seq<u8>) -> i32 {
    if name.len() > 0 && spec_to_upper(name[0]) == 77 {
        5
    } else if !spec_ci_prefix(name, 0, name_content_prefix()) {
        0
    } else {
        let c = if name.len() > 8 { spec_to_upper(name[8]) } else { 0u8 };
        let d = if name.len() > 9 { spec_to_upper(name[9]) } else { 0u8 };
        if c == 84 {
            if d == 89 { 1 } else if d == 82 { 2 } else { 0 }
        } else if c == 73 {
            3
        } else if c == 68 {
            if d == 69 { 4 } else if d == 73 { 6 } else { 0 }
        } else if c == 76 {
            if d == 65 { 7 } else if d == 79 { 8 } else { 0 }
        } else {
            0
        }
    }
}

pub fn guess_field_type(name: &[u8]) -> (t: i32)
    ensures
        t == spec_guess_field_type(name@),
{
    if name.len() > 0 && to_upper(name[0]) == 77 {
        return 5;
    }
    let pre: [u8; 8] = [67, 111, 110, 116, 101, 110, 116, 45];
    assert(pre@ == name_content_prefix());
    match mailimf_token_case_insensitive_len_parse(name, 0, &pre) {
        Ok(_) => {},
        Err(_) => return 0,
    }
    let c: u8 = if name.len() > 8 { to_upper(name[8]) } else { 0 };
    let d: u8 = if name.len() > 9 { to_upper(name[9]) } else { 0 };
    if c == 84 {
        if d == 89 { 1 } else if d == 82 { 2 } else { 0 }
    } else if c == 73 {
        3
    } else if c == 68 {
        if d == 69 { 4 } else if d == 73 { 6 } else { 0 }
    } else if c == 76 {
        if d == 65 { 7 } else if d == 79 { 8 } else { 0 }
    } else {
        0
    }
}

/// The full field name that goes with each kind of MIME field.
pub open spec fn mime_field_name(g: i32) -> Seq<u8> {
    if g == 1 {
        seq![67u8, 111u8, 110u8, 116u8, 101u8, 110u8, 116u8, 45u8, 84u8, 121u8, 112u8, 101u8]
    } else if g == 2 {
        seq![67u8, 111u8, 110u8, 116u8, 101u8, 110u8, 116u8, 45u8, 84u8, 114u8, 97u8, 110u8, 115u8, 102u8, 101u8, 114u8, 45u8, 69u8, 110u8, 99u8, 111u8, 100u8, 105u8, 110u8, 103u8]
    } else if g == 3 {
        seq![67u8, 111u8, 110u8, 116u8, 101u8, 110u8, 116u8, 45u8, 73u8, 68u8]
    } else if g == 4 {
        seq![67u8, 111u8, 110u8, 116u8, 101u8, 110u8, 116u8, 45u8, 68u8, 101u8, 115u8, 99u8, 114u8, 105u8, 112u8, 116u8, 105u8, 111u8, 110u8]
    } else if g == 5 {
        seq![77u8, 73u8, 77u8, 69u8, 45u8, 86u8, 101u8, 114u8, 115u8, 105u8, 111u8, 110u8]
    } else if g == 6 {
        seq![67u8, 111u8, 110u8, 116u8, 101u8, 110u8, 116u8, 45u8, 68u8, 105u8, 115u8, 112u8, 111u8, 115u8, 105u8, 116u8, 105u8, 111u8, 110u8]
    } else if g == 7 {
        seq![67u8, 111u8, 110u8, 116u8, 101u8, 110u8, 116u8, 45u8, 76u8, 97u8, 110u8, 103u8, 117u8, 97u8, 103u8, 101u8]
    } else {
        seq![67u8, 111u8, 110u8, 116u8, 101u8, 110u8, 116u8, 45u8, 76u8, 111u8, 99u8, 97u8, 116u8, 105u8, 111u8, 110u8]
    }
}

fn mime_field_name_bytes(g: i32) -> (v: Vec<u8>)
    requires
        1 <= g <= 8,
    ensures
        v@ == mime_field_name(g),
{
    let v: Vec<u8> = if g == 1 {
        vec![67, 111, 110, 116, 101, 110, 116, 45, 84, 121, 112, 101]
    } else if g == 2 {
        vec![67, 111, 110, 116, 101, 110, 116, 45, 84, 114, 97, 110, 115, 102, 101, 114, 45, 69, 110, 99, 111, 100, 105, 110, 103]
    } else if g == 3 {
        vec![67, 111, 110, 116, 101, 110, 116, 45, 73, 68]
    } else if g == 4 {
        vec![67, 111, 110, 116, 101, 110, 116, 45, 68, 101, 115, 99, 114, 105, 112, 116, 105, 111, 110]
    } else if g == 5 {
        vec![77, 73, 77, 69, 45, 86, 101, 114, 115, 105, 111, 110]
    } else if g == 6 {
        vec![67, 111, 110, 116, 101, 110, 116, 45, 68, 105, 115, 112, 111, 115, 105, 116, 105, 111, 110]
    } else if g == 7 {
        vec![67, 111, 110, 116, 101, 110, 116, 45, 76, 97, 110, 103, 117, 97, 103, 101]
    } else {
        vec![67, 111, 110, 116, 101, 110, 116, 45, 76, 111, 99, 97, 116, 105, 111, 110]
    };
    assert(v@ =~= mime_field_name(g));
    v
}

pub open spec fn charset_utf8() -> Seq<u8> {
    seq![117u8, 116u8, 102u8, 45u8, 56u8]
}

/// A Content-Type value: encoded words in it are decoded first (plain words
/// taken as US-ASCII); where that fails, the value is read as it stands.
pub open spec fn spec_content_type_value(value: Seq<u8>) -> Result<(ContentView, int), MailError> {
    match spec_encoded_phrase(charset_us_ascii(), value, 0) {
        Ok((decoded, _)) => spec_content(decoded, 0),
        Err(_) => spec_content(value, 0),
    }
}

/// What the value of a field of kind `g` (1 to 8) is read into.
pub open spec fn spec_mime_field_value(g: i32, value: Seq<u8>) -> Result<MimeFieldView, MailError> {
    if g == 1 {
        match spec_content_type_value(value) {
            Ok((c, _)) => Ok(MimeFieldView::Type(c)),
            Err(x) => Err(x),
        }
    } else if g == 2 {
        match spec_mechanism(value, 0) {
            Ok((m, _)) => Ok(MimeFieldView::TransferEncoding(m)),
            Err(x) => Err(x),
        }
    } else if g == 3 {
        match spec_msg_id(value, 0) {
            Ok((v, _)) => Ok(MimeFieldView::Id(v)),
            Err(x) => Err(x),
        }
    } else if g == 4 {
        match spec_custom_string(value, 0, CharClass::Text) {
            Ok((v, _)) => Ok(MimeFieldView::Description(v)),
            Err(x) => Err(x),
        }
    } else if g == 5 {
        match spec_version(value, 0) {
            Ok((v, _)) => Ok(MimeFieldView::Version(v)),
            Err(x) => Err(x),
        }
    } else if g == 6 {
        match spec_disposition(value, 0) {
            Ok((d, _)) => Ok(MimeFieldView::Disposition(d)),
            Err(x) => Err(x),
        }
    } else if g == 7 {
        match spec_language(value, 0) {
            Ok((l, _)) => Ok(MimeFieldView::Language(l)),
            Err(x) => Err(x),
        }
    } else {
        match spec_custom_string(value, 0, CharClass::Text) {
            Ok((v, _)) => Ok(MimeFieldView::Location(v)),
            Err(x) => Err(x),
        }
    }
}

/// An optional field read as a MIME field: its name must be one of the MIME
/// field names (case aside), and its whole value is read from the start.
#[verifier::opaque]
pub open spec fn spec_mime_field(f: OptionalFieldView) -> Result<MimeFieldView, MailError> {
    let g = spec_guess_field_type(f.name);
    if 1 <= g <= 8 && spec_ci_seq_eq(f.name, mime_field_name(g)) {
        spec_mime_field_value(g, f.value)
    } else {
        Err(MailError::Parse)
    }
}

fn content_type_value(value: &[u8]) -> (r: Result<mailmime_content, MailError>)
    ensures
        match (r, spec_content_type_value(value@)) {
            (Ok(c), Ok((cv, _))) => c@ == cv,
            (Err(a), Err(b)) => a == b,
            _ => false,
        },
{
    let ascii: [u8; 8] = [117, 115, 45, 97, 115, 99, 105, 105];
    let utf8: [u8; 5] = [117, 116, 102, 45, 56];
    assert(ascii@ == charset_us_ascii());
    let (c, _) = match mailmime_encoded_phrase_parse(&ascii, value, 0, &utf8) {
        Ok((decoded, _)) => mailmime_content_parse(decoded.as_slice(), 0)?,
        Err(_) => mailmime_content_parse(value, 0)?,
    };
    Ok(c)
}

/// Reads an optional field as a MIME field.
pub fn mailmime_field_parse(field: &mailimf_optional_field) -> (r: Result<mailmime_field, MailError>)
    ensures
        match (r, spec_mime_field(field@)) {
            (Ok(f), Ok(fv)) => f@ == fv,
            (Err(a), Err(b)) => a == b,
            _ => false,
        },
{
    reveal(spec_mime_field);
    let name = field.fld_name.as_slice();
    let value = field.fld_value.as_slice();
    let g = guess_field_type(name);
    if g < 1 || g > 8 {
        return Err(MailError::Parse);
    }
    let full = mime_field_name_bytes(g);
    if !ci_seq_eq(name, full.as_slice()) {
        return Err(MailError::Parse);
    }
    if g == 1 {
        let c = content_type_value(value)?;
        Ok(mailmime_field::Type(c))
    } else if g == 2 {
        let (m, _) = mailmime_encoding_parse(value, 0)?;
        Ok(mailmime_field::TransferEncoding(m))
    } else if g == 3 {
        let (v, _) = mailmime_id_parse(value, 0)?;
        Ok(mailmime_field::Id(v))
    } else if g == 4 {
        let (v, _) = mailmime_description_parse(value, 0)?;
        Ok(mailmime_field::Description(v))
    } else if g == 5 {
        let (v, _) = mailmime_version_parse(value, 0)?;
        Ok(mailmime_field::Version(v))
    } else if g == 6 {
        let (d, _) = mailmime_disposition_parse(value, 0)?;
        Ok(mailmime_field::Disposition(d))
    } else if g == 7 {
        let (l, _) = mailmime_language_parse(value, 0)?;
        Ok(mailmime_field::Language(l))
    } else {
        let (v, _) = mailmime_location_parse(value, 0)?;
        Ok(mailmime_field::Location(v))
    }
}

/// The MIME fields of a part.
#[allow(non_camel_case_types)]
pub struct mailmime_fields {
    pub fld_list: Vec<mailmime_field>,
}

pub open spec fn mime_fields_view(v: Seq<mailmime_field>) -> Seq<MimeFieldView> {
    v.map_values(|f: mailmime_field| f@)
}

impl View for mailmime_fields {
    type V = Seq<MimeFieldView>;

    open spec fn view(&self) -> Seq<MimeFieldView> {
        mime_fields_view(self.fld_list@)
    }
}

pub fn mailmime_fields_new(fld_list: Vec<mailmime_field>) -> (f: mailmime_fields)
    ensures
        f@ == mime_fields_view(fld_list@),
{
    mailmime_fields { fld_list }
}

/// MIME fields with none in them.
pub fn mailmime_fields_new_empty() -> (f: mailmime_fields)
    ensures
        f@ == Seq::<MimeFieldView>::empty(),
{
    let f = mailmime_fields { fld_list: Vec::new() };
    assert(f@ =~= Seq::<MimeFieldView>::empty());
    f
}

/// The MIME fields read from the header fields `k` on: optional fields that
/// are not MIME fields are left out; a failure other than a parse error stops all.
pub open spec fn spec_mime_fields_rest(fs: Seq<FieldView>, k: int, acc: Seq<MimeFieldView>) -> Result<Seq<MimeFieldView>, MailError>
    decreases fs.len() - k,
{
    if k < 0 || k >= fs.len() {
        Ok(acc)
    } else {
        match fs[k] {
            FieldView::OptionalField(of) => match spec_mime_field(of) {
                Ok(mf) => spec_mime_fields_rest(fs, k + 1, acc.push(mf)),
                Err(MailError::Parse) => spec_mime_fields_rest(fs, k + 1, acc),
                Err(x) => Err(x),
            },
            _ => spec_mime_fields_rest(fs, k + 1, acc),
        }
    }
}

/// The MIME fields of a header; a header without any is a parse error.
pub open spec fn spec_mime_fields(fs: Seq<FieldView>) -> Result<Seq<MimeFieldView>, MailError> {
    match spec_mime_fields_rest(fs, 0, Seq::empty()) {
        Ok(l) => if l.len() == 0 { Err(MailError::Parse) } else { Ok(l) },
        Err(x) => Err(x),
    }
}

pub fn mailmime_fields_parse(fields: &mailimf_fields) -> (r: Result<mailmime_fields, MailError>)
    ensures
        match (r, spec_mime_fields(fields@)) {
            (Ok(f), Ok(l)) => f@ == l,
            (Err(a), Err(b)) => a == b,
            _ => false,
        },
{
    let ghost fs = fields@;
    let ghost whole = spec_mime_fields_rest(fs, 0, Seq::empty());
    let mut list: Vec<mailmime_field> = Vec::new();
    assert(mime_fields_view(list@) =~= Seq::<MimeFieldView>::empty());
    let n = fields.fld_list.len();
    let mut k: usize = 0;
    while k < n
        invariant
            n == fields.fld_list@.len(),
            fs == fields@,
            fs.len() == n,
            0 <= k <= n,
            whole == spec_mime_fields_rest(fs, 0, Seq::empty()),
            whole == spec_mime_fields_rest(fs, k as int, mime_fields_view(list@)),
        decreases n - k,
    {
        assert(fs[k as int] == fields.fld_list@[k as int]@);
        match &fields.fld_list[k] {
            mailimf_field::OptionalField(of) => {
                match mailmime_field_parse(of) {
                    Ok(mf) => {
                        let ghost l0 = list@;
                        let ghost mv = mf@;
                        list.push(mf);
                        assert(mime_fields_view(list@) =~= mime_fields_view(l0).push(mv));
                    },
                    Err(MailError::Parse) => {},
                    Err(x) => return Err(x),
                }
            },
            _ => {},
        }
        k = k + 1;
    }
    if list.len() == 0 {
        return Err(MailError::Parse);
    }
    Ok(mailmime_fields_new(list))
}

/// The transfer encoding that the first Content-Transfer-Encoding field
/// gives, or 8bit when there is none.
pub open spec fn spec_transfer_encoding(fs: Seq<MimeFieldView>) -> i32
    decreases fs.len(),
{
    if fs.len() == 0 {
        MAILMIME_MECHANISM_8BIT
    } else {
        match fs[0] {
            MimeFieldView::TransferEncoding(m) => m.0,
            _ => spec_transfer_encoding(fs.drop_first()),
        }
    }
}

pub fn mailmime_transfer_encoding_get(fields: &mailmime_fields) -> (t: i32)
    ensures
        t == spec_transfer_encoding(fields@),
{
    let n = fields.fld_list.len();
    let mut k: usize = 0;
    assert(fields@.subrange(0, n as int) =~= fields@);
    while k < n
        invariant
            n == fields.fld_list@.len(),
            0 <= k <= n,
            spec_transfer_encoding(fields@) == spec_transfer_encoding(fields@.subrange(k as int, n as int)),
        decreases n - k,
    {
        let ghost rest = fields@.subrange(k as int, n as int);
        assert(rest[0] == fields.fld_list@[k as int]@);
        assert(rest.drop_first() =~= fields@.subrange(k + 1, n as int));
        match &fields.fld_list[k] {
            mailmime_field::TransferEncoding(m) => return m.enc_type,
            _ => {},
        }
        k = k + 1;
    }
    assert(fields@.subrange(n as int, n as int) =~= Seq::<MimeFieldView>::empty());
    MAILMIME_MECHANISM_8BIT
}



/// A new MIME field of type `fld_type` (one of the `MAILMIME_FIELD_*`
/// constants), from the argument of that type; none when the type is another
/// number or its argument is missing.
pub fn mailmime_field_new(
    fld_type: i32,
    fld_content: Option<mailmime_content>,
    fld_encoding: Option<mailmime_mechanism>,
    fld_id: Option<Vec<u8>>,
    fld_description: Option<Vec<u8>>,
    fld_version: u32,
    fld_disposition: Option<mailmime_disposition>,
    fld_language: Option<mailmime_language>,
    fld_location: Option<Vec<u8>>,
) -> (f: Option<mailmime_field>)
    ensures
        f == (if fld_type == MAILMIME_FIELD_TYPE && fld_content is Some {
            Some(mailmime_field::Type(fld_content.unwrap()))
        } else if fld_type == MAILMIME_FIELD_TRANSFER_ENCODING && fld_encoding is Some {
            Some(mailmime_field::TransferEncoding(fld_encoding.unwrap()))
        } else if fld_type == MAILMIME_FIELD_ID && fld_id is Some {
            Some(mailmime_field::Id(fld_id.unwrap()))
        } else if fld_type == MAILMIME_FIELD_DESCRIPTION && fld_description is Some {
            Some(mailmime_field::Description(fld_description.unwrap()))
        } else if fld_type == MAILMIME_FIELD_VERSION {
            Some(mailmime_field::Version(fld_version))
        } else if fld_type == MAILMIME_FIELD_DISPOSITION && fld_disposition is Some {
            Some(mailmime_field::Disposition(fld_disposition.unwrap()))
        } else if fld_type == MAILMIME_FIELD_LANGUAGE && fld_language is Some {
            Some(mailmime_field::Language(fld_language.unwrap()))
        } else if fld_type == MAILMIME_FIELD_LOCATION && fld_location is Some {
            Some(mailmime_field::Location(fld_location.unwrap()))
        } else {
            None
        }),
{
    if fld_type == MAILMIME_FIELD_TYPE {
        match fld_content { Some(x) => Some(mailmime_field::Type(x)), None => None }
    } else if fld_type == MAILMIME_FIELD_TRANSFER_ENCODING {
        match fld_encoding { Some(x) => Some(mailmime_field::TransferEncoding(x)), None => None }
    } else if fld_type == MAILMIME_FIELD_ID {
        match fld_id { Some(x) => Some(mailmime_field::Id(x)), None => None }
    } else if fld_type == MAILMIME_FIELD_DESCRIPTION {
        match fld_description { Some(x) => Some(mailmime_field::Description(x)), None => None }
    } else if fld_type == MAILMIME_FIELD_VERSION {
        Some(mailmime_field::Version(fld_version))
    } else if fld_type == MAILMIME_FIELD_DISPOSITION {
        match fld_disposition { Some(x) => Some(mailmime_field::Disposition(x)), None => None }
    } else if fld_type == MAILMIME_FIELD_LANGUAGE {
        match fld_language { Some(x) => Some(mailmime_field::Language(x)), None => None }
    } else if fld_type == MAILMIME_FIELD_LOCATION {
        match fld_location { Some(x) => Some(mailmime_field::Location(x)), None => None }
    } else {
        None
    }
}

/// The transfer encodings by name: `7bit`, `8bit`, `binary`,
/// `quoted-printable` and `base64` (any case) give mechanisms 1 to 5, each
/// its own, reading the name; a mechanism among 1 to 5 is given only for its
/// own name, and anything else that is read is a token (mechanism 6).
pub proof fn law_mechanism_names(s: Seq<u8>, i: int)
    ensures
        spec_ci_prefix(s, i, seq![55u8, 98u8, 105u8, 116u8])
            ==> spec_mechanism(s, i) == Ok::<((i32, Option<Seq<u8>>), int), MailError>(((1i32, None), i + 4)),
        spec_ci_prefix(s, i, seq![56u8, 98u8, 105u8, 116u8])
            ==> spec_mechanism(s, i) == Ok::<((i32, Option<Seq<u8>>), int), MailError>(((2i32, None), i + 4)),
        spec_ci_prefix(s, i, seq![98u8, 105u8, 110u8, 97u8, 114u8, 121u8])
            ==> spec_mechanism(s, i) == Ok::<((i32, Option<Seq<u8>>), int), MailError>(((3i32, None), i + 6)),
        spec_ci_prefix(s, i, seq![113u8, 117u8, 111u8, 116u8, 101u8, 100u8, 45u8, 112u8, 114u8, 105u8, 110u8, 116u8, 97u8, 98u8, 108u8, 101u8])
            ==> spec_mechanism(s, i) == Ok::<((i32, Option<Seq<u8>>), int), MailError>(((4i32, None), i + 16)),
        spec_ci_prefix(s, i, seq![98u8, 97u8, 115u8, 101u8, 54u8, 52u8])
            ==> spec_mechanism(s, i) == Ok::<((i32, Option<Seq<u8>>), int), MailError>(((5i32, None), i + 6)),
        spec_mechanism(s, i) matches Ok(((t, x), _)) ==> {
            &&& 1 <= t <= 6
            &&& (x is Some <==> t == 6)
            &&& (t == 1 ==> spec_ci_prefix(s, i, seq![55u8, 98u8, 105u8, 116u8]))
            &&& (t == 2 ==> spec_ci_prefix(s, i, seq![56u8, 98u8, 105u8, 116u8]))
            &&& (t == 3 ==> spec_ci_prefix(s, i, seq![98u8, 105u8, 110u8, 97u8, 114u8, 121u8]))
            &&& (t == 4 ==> spec_ci_prefix(s, i, seq![113u8, 117u8, 111u8, 116u8, 101u8, 100u8, 45u8, 112u8, 114u8, 105u8, 110u8, 116u8, 97u8, 98u8, 108u8, 101u8]))
            &&& (t == 5 ==> spec_ci_prefix(s, i, seq![98u8, 97u8, 115u8, 101u8, 54u8, 52u8]))
        },
{
    let m1 = seq![55u8, 98u8, 105u8, 116u8];
    let m2 = seq![56u8, 98u8, 105u8, 116u8];
    let m3 = seq![98u8, 105u8, 110u8, 97u8, 114u8, 121u8];
    let m4 = seq![113u8, 117u8, 111u8, 116u8, 101u8, 100u8, 45u8, 112u8, 114u8, 105u8, 110u8, 116u8, 97u8, 98u8, 108u8, 101u8];
    let m5 = seq![98u8, 97u8, 115u8, 101u8, 54u8, 52u8];
    assert(mech_name(1) == m1 && mech_name(2) == m2 && mech_name(3) == m3 && mech_name(4) == m4 && mech_name(5) == m5);
    if spec_ci_prefix(s, i, m1) { lemma_ci_prefix_byte(s, i, m1, 0); }
    if spec_ci_prefix(s, i, m2) { lemma_ci_prefix_byte(s, i, m2, 0); }
    if spec_ci_prefix(s, i, m3) { lemma_ci_prefix_byte(s, i, m3, 0); lemma_ci_prefix_byte(s, i, m3, 1); }
    if spec_ci_prefix(s, i, m4) { lemma_ci_prefix_byte(s, i, m4, 0); }
    if spec_ci_prefix(s, i, m5) { lemma_ci_prefix_byte(s, i, m5, 0); lemma_ci_prefix_byte(s, i, m5, 1); }
}

#[verifier::spinoff_prover]
proof fn lemma_mime_field_by_guess(f: OptionalFieldView)
    ensures
        1 <= spec_guess_field_type(f.name) <= 8 && spec_ci_seq_eq(f.name, mime_field_name(spec_guess_field_type(f.name)))
            ==> spec_mime_field(f) == spec_mime_field_value(spec_guess_field_type(f.name), f.value),
{
    reveal(spec_mime_field);
}

proof fn lemma_mime_name_1(f: OptionalFieldView)
    requires
        spec_ci_seq_eq(f.name, seq![67u8, 111u8, 110u8, 116u8, 101u8, 110u8, 116u8, 45u8, 84u8, 121u8, 112u8, 101u8]),
    ensures
        spec_guess_field_type(f.name) == 1i32,
        spec_ci_seq_eq(f.name, mime_field_name(1i32)),
{
    let n = seq![67u8, 111u8, 110u8, 116u8, 101u8, 110u8, 116u8, 45u8, 84u8, 121u8, 112u8, 101u8];
    assert(mime_field_name(1i32) == n);
    assert(spec_ci_eq(f.name[0], n[0]));
    assert(spec_ci_eq(f.name[8], n[8]));
    assert(spec_ci_eq(f.name[9], n[9]));
    assert forall|k: int| 0 <= k < 8 implies #[trigger] spec_ci_eq(f.name[0 + k], name_content_prefix()[k]) by {
        assert(spec_ci_eq(f.name[k], n[k]));
    }
    assert(spec_guess_field_type(f.name) == 1i32);
}

proof fn lemma_mime_name_2(f: OptionalFieldView)
    requires
        spec_ci_seq_eq(f.name, seq![67u8, 111u8, 110u8, 116u8, 101u8, 110u8, 116u8, 45u8, 84u8, 114u8, 97u8, 110u8, 115u8, 102u8, 101u8, 114u8, 45u8, 69u8, 110u8, 99u8, 111u8, 100u8, 105u8, 110u8, 103u8]),
    ensures
        spec_guess_field_type(f.name) == 2i32,
        spec_ci_seq_eq(f.name, mime_field_name(2i32)),
{
    let n = seq![67u8, 111u8, 110u8, 116u8, 101u8, 110u8, 116u8, 45u8, 84u8, 114u8, 97u8, 110u8, 115u8, 102u8, 101u8, 114u8, 45u8, 69u8, 110u8, 99u8, 111u8, 100u8, 105u8, 110u8, 103u8];
    assert(mime_field_name(2i32) == n);
    assert(spec_ci_eq(f.name[0], n[0]));
    assert(spec_ci_eq(f.name[8], n[8]));
    assert(spec_ci_eq(f.name[9], n[9]));
    assert forall|k: int| 0 <= k < 8 implies #[trigger] spec_ci_eq(f.name[0 + k], name_content_prefix()[k]) by {
        assert(spec_ci_eq(f.name[k], n[k]));
    }
    assert(spec_guess_field_type(f.name) == 2i32);
}

proof fn lemma_mime_name_3(f: OptionalFieldView)
    requires
        spec_ci_seq_eq(f.name, seq![67u8, 111u8, 110u8, 116u8, 101u8, 110u8, 116u8, 45u8, 73u8, 68u8]),
    ensures
        spec_guess_field_type(f.name) == 3i32,
        spec_ci_seq_eq(f.name, mime_field_name(3i32)),
{
    let n = seq![67u8, 111u8, 110u8, 116u8, 101u8, 110u8, 116u8, 45u8, 73u8, 68u8];
    assert(mime_field_name(3i32) == n);
    assert(spec_ci_eq(f.name[0], n[0]));
    assert(spec_ci_eq(f.name[8], n[8]));
    assert(spec_ci_eq(f.name[9], n[9]));
    assert forall|k: int| 0 <= k < 8 implies #[trigger] spec_ci_eq(f.name[0 + k], name_content_prefix()[k]) by {
        assert(spec_ci_eq(f.name[k], n[k]));
    }
    assert(spec_guess_field_type(f.name) == 3i32);
}

proof fn lemma_mime_name_4(f: OptionalFieldView)
    requires
        spec_ci_seq_eq(f.name, seq![67u8, 111u8, 110u8, 116u8, 101u8, 110u8, 116u8, 45u8, 68u8, 101u8, 115u8, 99u8, 114u8, 105u8, 112u8, 116u8, 105u8, 111u8, 110u8]),
    ensures
        spec_guess_field_type(f.name) == 4i32,
        spec_ci_seq_eq(f.name, mime_field_name(4i32)),
{
    let n = seq![67u8, 111u8, 110u8, 116u8, 101u8, 110u8, 116u8, 45u8, 68u8, 101u8, 115u8, 99u8, 114u8, 105u8, 112u8, 116u8, 105u8, 111u8, 110u8];
    assert(mime_field_name(4i32) == n);
    assert(spec_ci_eq(f.name[0], n[0]));
    assert(spec_ci_eq(f.name[8], n[8]));
    assert(spec_ci_eq(f.name[9], n[9]));
    assert forall|k: int| 0 <= k < 8 implies #[trigger] spec_ci_eq(f.name[0 + k], name_content_prefix()[k]) by {
        assert(spec_ci_eq(f.name[k], n[k]));
    }
    assert(spec_guess_field_type(f.name) == 4i32);
}

proof fn lemma_mime_name_5(f: OptionalFieldView)
    requires
        spec_ci_seq_eq(f.name, seq![77u8, 73u8, 77u8, 69u8, 45u8, 86u8, 101u8, 114u8, 115u8, 105u8, 111u8, 110u8]),
    ensures
        spec_guess_field_type(f.name) == 5i32,
        spec_ci_seq_eq(f.name, mime_field_name(5i32)),
{
    let n = seq![77u8, 73u8, 77u8, 69u8, 45u8, 86u8, 101u8, 114u8, 115u8, 105u8, 111u8, 110u8];
    assert(mime_field_name(5i32) == n);
    assert(spec_ci_eq(f.name[0], n[0]));
    assert(spec_guess_field_type(f.name) == 5i32);
}

proof fn lemma_mime_name_6(f: OptionalFieldView)
    requires
        spec_ci_seq_eq(f.name, seq![67u8, 111u8, 110u8, 116u8, 101u8, 110u8, 116u8, 45u8, 68u8, 105u8, 115u8, 112u8, 111u8, 115u8, 105u8, 116u8, 105u8, 111u8, 110u8]),
    ensures
        spec_guess_field_type(f.name) == 6i32,
        spec_ci_seq_eq(f.name, mime_field_name(6i32)),
{
    let n = seq![67u8, 111u8, 110u8, 116u8, 101u8, 110u8, 116u8, 45u8, 68u8, 105u8, 115u8, 112u8, 111u8, 115u8, 105u8, 116u8, 105u8, 111u8, 110u8];
    assert(mime_field_name(6i32) == n);
    assert(spec_ci_eq(f.name[0], n[0]));
    assert(spec_ci_eq(f.name[8], n[8]));
    assert(spec_ci_eq(f.name[9], n[9]));
    assert forall|k: int| 0 <= k < 8 implies #[trigger] spec_ci_eq(f.name[0 + k], name_content_prefix()[k]) by {
        assert(spec_ci_eq(f.name[k], n[k]));
    }
    assert(spec_guess_field_type(f.name) == 6i32);
}

proof fn lemma_mime_name_7(f: OptionalFieldView)
    requires
        spec_ci_seq_eq(f.name, seq![67u8, 111u8, 110u8, 116u8, 101u8, 110u8, 116u8, 45u8, 76u8, 97u8, 110u8, 103u8, 117u8, 97u8, 103u8, 101u8]),
    ensures
        spec_guess_field_type(f.name) == 7i32,
        spec_ci_seq_eq(f.name, mime_field_name(7i32)),
{
    let n = seq![67u8, 111u8, 110u8, 116u8, 101u8, 110u8, 116u8, 45u8, 76u8, 97u8, 110u8, 103u8, 117u8, 97u8, 103u8, 101u8];
    assert(mime_field_name(7i32) == n);
    assert(spec_ci_eq(f.name[0], n[0]));
    assert(spec_ci_eq(f.name[8], n[8]));
    assert(spec_ci_eq(f.name[9], n[9]));
    assert forall|k: int| 0 <= k < 8 implies #[trigger] spec_ci_eq(f.name[0 + k], name_content_prefix()[k]) by {
        assert(spec_ci_eq(f.name[k], n[k]));
    }
    assert(spec_guess_field_type(f.name) == 7i32);
}

proof fn lemma_mime_name_8(f: OptionalFieldView)
    requires
        spec_ci_seq_eq(f.name, seq![67u8, 111u8, 110u8, 116u8, 101u8, 110u8, 116u8, 45u8, 76u8, 111u8, 99u8, 97u8, 116u8, 105u8, 111u8, 110u8]),
    ensures
        spec_guess_field_type(f.name) == 8i32,
        spec_ci_seq_eq(f.name, mime_field_name(8i32)),
{
    let n = seq![67u8, 111u8, 110u8, 116u8, 101u8, 110u8, 116u8, 45u8, 76u8, 111u8, 99u8, 97u8, 116u8, 105u8, 111u8, 110u8];
    assert(mime_field_name(8i32) == n);
    assert(spec_ci_eq(f.name[0], n[0]));
    assert(spec_ci_eq(f.name[8], n[8]));
    assert(spec_ci_eq(f.name[9], n[9]));
    assert forall|k: int| 0 <= k < 8 implies #[trigger] spec_ci_eq(f.name[0 + k], name_content_prefix()[k]) by {
        assert(spec_ci_eq(f.name[k], n[k]));
    }
    assert(spec_guess_field_type(f.name) == 8i32);
}

/// The MIME fields by name: a field named `Content-Type`,
/// `Content-Transfer-Encoding`, `Content-ID`, `Content-Description`,
/// `MIME-Version`, `Content-Disposition`, `Content-Language` or
/// `Content-Location` (any case) is read as the MIME field of that type
/// (1 to 8), from its value.
pub proof fn law_mime_field_names(f: OptionalFieldView)
    ensures
        spec_ci_seq_eq(f.name, seq![67u8, 111u8, 110u8, 116u8, 101u8, 110u8, 116u8, 45u8, 84u8, 121u8, 112u8, 101u8]) ==> spec_mime_field(f) == spec_mime_field_value(1i32, f.value),
        spec_ci_seq_eq(f.name, seq![67u8, 111u8, 110u8, 116u8, 101u8, 110u8, 116u8, 45u8, 84u8, 114u8, 97u8, 110u8, 115u8, 102u8, 101u8, 114u8, 45u8, 69u8, 110u8, 99u8, 111u8, 100u8, 105u8, 110u8, 103u8]) ==> spec_mime_field(f) == spec_mime_field_value(2i32, f.value),
        spec_ci_seq_eq(f.name, seq![67u8, 111u8, 110u8, 116u8, 101u8, 110u8, 116u8, 45u8, 73u8, 68u8]) ==> spec_mime_field(f) == spec_mime_field_value(3i32, f.value),
        spec_ci_seq_eq(f.name, seq![67u8, 111u8, 110u8, 116u8, 101u8, 110u8, 116u8, 45u8, 68u8, 101u8, 115u8, 99u8, 114u8, 105u8, 112u8, 116u8, 105u8, 111u8, 110u8]) ==> spec_mime_field(f) == spec_mime_field_value(4i32, f.value),
        spec_ci_seq_eq(f.name, seq![77u8, 73u8, 77u8, 69u8, 45u8, 86u8, 101u8, 114u8, 115u8, 105u8, 111u8, 110u8]) ==> spec_mime_field(f) == spec_mime_field_value(5i32, f.value),
        spec_ci_seq_eq(f.name, seq![67u8, 111u8, 110u8, 116u8, 101u8, 110u8, 116u8, 45u8, 68u8, 105u8, 115u8, 112u8, 111u8, 115u8, 105u8, 116u8, 105u8, 111u8, 110u8]) ==> spec_mime_field(f) == spec_mime_field_value(6i32, f.value),
        spec_ci_seq_eq(f.name, seq![67u8, 111u8, 110u8, 116u8, 101u8, 110u8, 116u8, 45u8, 76u8, 97u8, 110u8, 103u8, 117u8, 97u8, 103u8, 101u8]) ==> spec_mime_field(f) == spec_mime_field_value(7i32, f.value),
        spec_ci_seq_eq(f.name, seq![67u8, 111u8, 110u8, 116u8, 101u8, 110u8, 116u8, 45u8, 76u8, 111u8, 99u8, 97u8, 116u8, 105u8, 111u8, 110u8]) ==> spec_mime_field(f) == spec_mime_field_value(8i32, f.value),
{
    lemma_mime_field_by_guess(f);
    if spec_ci_seq_eq(f.name, seq![67u8, 111u8, 110u8, 116u8, 101u8, 110u8, 116u8, 45u8, 84u8, 121u8, 112u8, 101u8]) { lemma_mime_name_1(f); }
    if spec_ci_seq_eq(f.name, seq![67u8, 111u8, 110u8, 116u8, 101u8, 110u8, 116u8, 45u8, 84u8, 114u8, 97u8, 110u8, 115u8, 102u8, 101u8, 114u8, 45u8, 69u8, 110u8, 99u8, 111u8, 100u8, 105u8, 110u8, 103u8]) { lemma_mime_name_2(f); }
    if spec_ci_seq_eq(f.name, seq![67u8, 111u8, 110u8, 116u8, 101u8, 110u8, 116u8, 45u8, 73u8, 68u8]) { lemma_mime_name_3(f); }
    if spec_ci_seq_eq(f.name, seq![67u8, 111u8, 110u8, 116u8, 101u8, 110u8, 116u8, 45u8, 68u8, 101u8, 115u8, 99u8, 114u8, 105u8, 112u8, 116u8, 105u8, 111u8, 110u8]) { lemma_mime_name_4(f); }
    if spec_ci_seq_eq(f.name, seq![77u8, 73u8, 77u8, 69u8, 45u8, 86u8, 101u8, 114u8, 115u8, 105u8, 111u8, 110u8]) { lemma_mime_name_5(f); }
    if spec_ci_seq_eq(f.name, seq![67u8, 111u8, 110u8, 116u8, 101u8, 110u8, 116u8, 45u8, 68u8, 105u8, 115u8, 112u8, 111u8, 115u8, 105u8, 116u8, 105u8, 111u8, 110u8]) { lemma_mime_name_6(f); }
    if spec_ci_seq_eq(f.name, seq![67u8, 111u8, 110u8, 116u8, 101u8, 110u8, 116u8, 45u8, 76u8, 97u8, 110u8, 103u8, 117u8, 97u8, 103u8, 101u8]) { lemma_mime_name_7(f); }
    if spec_ci_seq_eq(f.name, seq![67u8, 111u8, 110u8, 116u8, 101u8, 110u8, 116u8, 45u8, 76u8, 111u8, 99u8, 97u8, 116u8, 105u8, 111u8, 110u8]) { lemma_mime_name_8(f); }
}

} // verus!
