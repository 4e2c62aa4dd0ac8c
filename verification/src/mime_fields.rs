//! MIME header fields (RFC 2045): content types with their parameters,
//! transfer encodings, ids, descriptions, versions, languages, locations.

use vstd::prelude::*;
use crate::MailError;
use crate::res_view;
use crate::chars::CharClass;
use crate::lex::{spec_ci_prefix, lemma_ci_prefix_byte, spec_skip_cfws, spec_unstrict_char, spec_token_ci, spec_custom_string,
    skip_cfws, lemma_cfws, mailimf_unstrict_char_parse, mailimf_token_case_insensitive_len_parse,
    mailimf_custom_string_parse};
use crate::words::{spec_atom, spec_quoted_string, mailimf_atom_parse, mailimf_quoted_string_parse};
use crate::address::opt_bytes_view;
use crate::encoded_word::{spec_ci_seq_eq, ci_seq_eq};

verus! {

pub const MAILMIME_DISCRETE_TYPE_ERROR: i32 = 0;
pub const MAILMIME_DISCRETE_TYPE_TEXT: i32 = 1;
pub const MAILMIME_DISCRETE_TYPE_IMAGE: i32 = 2;
pub const MAILMIME_DISCRETE_TYPE_AUDIO: i32 = 3;
pub const MAILMIME_DISCRETE_TYPE_VIDEO: i32 = 4;
pub const MAILMIME_DISCRETE_TYPE_APPLICATION: i32 = 5;
pub const MAILMIME_DISCRETE_TYPE_EXTENSION: i32 = 6;

pub const MAILMIME_COMPOSITE_TYPE_ERROR: i32 = 0;
pub const MAILMIME_COMPOSITE_TYPE_MESSAGE: i32 = 1;
pub const MAILMIME_COMPOSITE_TYPE_MULTIPART: i32 = 2;
pub const MAILMIME_COMPOSITE_TYPE_EXTENSION: i32 = 3;

pub const MAILMIME_TYPE_ERROR: i32 = 0;
pub const MAILMIME_TYPE_DISCRETE_TYPE: i32 = 1;
pub const MAILMIME_TYPE_COMPOSITE_TYPE: i32 = 2;

pub const MAILMIME_MECHANISM_ERROR: i32 = 0;
pub const MAILMIME_MECHANISM_7BIT: i32 = 1;
pub const MAILMIME_MECHANISM_8BIT: i32 = 2;
pub const MAILMIME_MECHANISM_BINARY: i32 = 3;
pub const MAILMIME_MECHANISM_QUOTED_PRINTABLE: i32 = 4;
pub const MAILMIME_MECHANISM_BASE64: i32 = 5;
pub const MAILMIME_MECHANISM_TOKEN: i32 = 6;

/// `text`, `image`, ..., or an extension token.
#[allow(non_camel_case_types)]
pub struct mailmime_discrete_type {
    pub dt_type: i32,
    pub dt_extension: Option<Vec<u8>>,
}

/// `message` or `multipart`.
#[allow(non_camel_case_types)]
pub struct mailmime_composite_type {
    pub ct_type: i32,
    pub ct_token: Option<Vec<u8>>,
}

/// The type of a MIME content.
#[allow(non_camel_case_types)]
pub enum mailmime_type {
    DiscreteType(mailmime_discrete_type),
    CompositeType(mailmime_composite_type),
}

/// A type, seen as its kind, its number within the kind and its extension token.
pub enum MimeTypeView {
    Discrete(i32, Option<Seq<u8>>),
    Composite(i32, Option<Seq<u8>>),
}

impl View for mailmime_type {
    type V = MimeTypeView;

    open spec fn view(&self) -> MimeTypeView {
        match self {
            mailmime_type::DiscreteType(d) => MimeTypeView::Discrete(d.dt_type, opt_bytes_view(d.dt_extension)),
            mailmime_type::CompositeType(c) => MimeTypeView::Composite(c.ct_type, opt_bytes_view(c.ct_token)),
        }
    }
}

impl mailmime_type {
    /// `MAILMIME_TYPE_DISCRETE_TYPE` or `MAILMIME_TYPE_COMPOSITE_TYPE`.
    pub fn tp_type(&self) -> (t: i32)
        ensures
            t == (if self@ is Discrete { MAILMIME_TYPE_DISCRETE_TYPE } else { MAILMIME_TYPE_COMPOSITE_TYPE }),
    {
        match self {
            mailmime_type::DiscreteType(_) => MAILMIME_TYPE_DISCRETE_TYPE,
            mailmime_type::CompositeType(_) => MAILMIME_TYPE_COMPOSITE_TYPE,
        }
    }
}

/// `name=value` of a content type.
#[allow(non_camel_case_types)]
pub struct mailmime_parameter {
    pub pa_name: Vec<u8>,
    pub pa_value: Vec<u8>,
}

pub struct ParamView {
    pub name: Seq<u8>,
    pub value: Seq<u8>,
}

impl View for mailmime_parameter {
    type V = ParamView;

    open spec fn view(&self) -> ParamView {
        ParamView { name: self.pa_name@, value: self.pa_value@ }
    }
}

pub open spec fn params_view(v: Seq<mailmime_parameter>) -> Seq<ParamView> {
    v.map_values(|p: mailmime_parameter| p@)
}

pub fn mailmime_parameter_new(pa_name: Vec<u8>, pa_value: Vec<u8>) -> (p: mailmime_parameter)
    ensures
        p@ == (ParamView { name: pa_name@, value: pa_value@ }),
{
    mailmime_parameter { pa_name, pa_value }
}

/// A content type: type, subtype and parameters.
#[allow(non_camel_case_types)]
pub struct mailmime_content {
    pub ct_type: mailmime_type,
    pub ct_subtype: Vec<u8>,
    pub ct_parameters: Vec<mailmime_parameter>,
}

pub struct ContentView {
    pub ty: MimeTypeView,
    pub subtype: Seq<u8>,
    pub params: Seq<ParamView>,
}

impl View for mailmime_content {
    type V = ContentView;

    open spec fn view(&self) -> ContentView {
        ContentView { ty: self.ct_type@, subtype: self.ct_subtype@, params: params_view(self.ct_parameters@) }
    }
}

pub fn mailmime_content_new(ct_type: mailmime_type, ct_subtype: Vec<u8>, ct_parameters: Vec<mailmime_parameter>) -> (c: mailmime_content)
    ensures
        c@ == (ContentView { ty: ct_type@, subtype: ct_subtype@, params: params_view(ct_parameters@) }),
{
    mailmime_content { ct_type, ct_subtype, ct_parameters }
}

/// token: a non-empty run of bytes that are neither controls, space nor tspecials.
pub open spec fn spec_mime_token(s: Seq<u8>, i: int) -> Result<(Seq<u8>, int), MailError> {
    spec_custom_string(s, i, CharClass::Token)
}

pub fn mailmime_token_parse(message: &[u8], indx: usize) -> (r: Result<(Vec<u8>, usize), MailError>)
    requires
        indx <= message@.len(),
    ensures
        res_view(r) == spec_mime_token(message@, indx as int),
        r matches Ok((_, j)) ==> indx < j <= message@.len(),
{
    mailimf_custom_string_parse(message, indx, CharClass::Token)
}

/// attribute: a token.
pub fn mailmime_attribute_parse(message: &[u8], indx: usize) -> (r: Result<(Vec<u8>, usize), MailError>)
    requires
        indx <= message@.len(),
    ensures
        res_view(r) == spec_mime_token(message@, indx as int),
        r matches Ok((_, j)) ==> indx < j <= message@.len(),
{
    mailmime_token_parse(message, indx)
}

/// extension-token: a token.
pub fn mailmime_extension_token_parse(message: &[u8], indx: usize) -> (r: Result<(Vec<u8>, usize), MailError>)
    requires
        indx <= message@.len(),
    ensures
        res_view(r) == spec_mime_token(message@, indx as int),
        r matches Ok((_, j)) ==> indx < j <= message@.len(),
{
    mailmime_token_parse(message, indx)
}

/// subtype: an extension token.
pub fn mailmime_subtype_parse(message: &[u8], indx: usize) -> (r: Result<(Vec<u8>, usize), MailError>)
    requires
        indx <= message@.len(),
    ensures
        res_view(r) == spec_mime_token(message@, indx as int),
        r matches Ok((_, j)) ==> indx < j <= message@.len(),
{
    mailmime_extension_token_parse(message, indx)
}

/// value: an atom, or else a quoted string.
pub open spec fn spec_mime_value(s: Seq<u8>, i: int) -> Result<(Seq<u8>, int), MailError> {
    match spec_atom(s, i) {
        Err(MailError::Parse) => spec_quoted_string(s, i),
        other => other,
    }
}

pub fn mailmime_value_parse(message: &[u8], indx: usize) -> (r: Result<(Vec<u8>, usize), MailError>)
    requires
        indx <= message@.len(),
    ensures
        res_view(r) == spec_mime_value(message@, indx as int),
        r matches Ok((_, j)) ==> indx < j <= message@.len(),
{
    match mailimf_atom_parse(message, indx) {
        Err(MailError::Parse) => mailimf_quoted_string_parse(message, indx),
        other => other,
    }
}

/// parameter: attribute `=` value.
pub open spec fn spec_parameter(s: Seq<u8>, i: int) -> Result<(ParamView, int), MailError> {
    match spec_mime_token(s, i) {
        Err(x) => Err(x),
        Ok((name, j)) => match spec_unstrict_char(s, j, 61) {
            Err(x) => Err(x),
            Ok(k) => match spec_mime_value(s, spec_skip_cfws(s, k)) {
                Err(x) => Err(x),
                Ok((value, e)) => Ok((ParamView { name, value }, e)),
            },
        },
    }
}

pub fn mailmime_parameter_parse(message: &[u8], indx: usize) -> (r: Result<(mailmime_parameter, usize), MailError>)
    requires
        indx <= message@.len(),
    ensures
        res_view(r) == spec_parameter(message@, indx as int),
        r matches Ok((_, j)) ==> indx < j <= message@.len(),
{
    let (name, j) = mailmime_attribute_parse(message, indx)?;
    let k = mailimf_unstrict_char_parse(message, j, 61)?;
    let k2 = skip_cfws(message, k);
    let (value, e) = mailmime_value_parse(message, k2)?;
    Ok((mailmime_parameter_new(name, value), e))
}

pub open spec fn tok_text() -> Seq<u8> { seq![116u8, 101u8, 120u8, 116u8] }
pub open spec fn tok_image() -> Seq<u8> { seq![105u8, 109u8, 97u8, 103u8, 101u8] }
pub open spec fn tok_audio() -> Seq<u8> { seq![97u8, 117u8, 100u8, 105u8, 111u8] }
pub open spec fn tok_video() -> Seq<u8> { seq![118u8, 105u8, 100u8, 101u8, 111u8] }
pub open spec fn tok_application() -> Seq<u8> {
    seq![97u8, 112u8, 112u8, 108u8, 105u8, 99u8, 97u8, 116u8, 105u8, 111u8, 110u8]
}
pub open spec fn tok_message() -> Seq<u8> { seq![109u8, 101u8, 115u8, 115u8, 97u8, 103u8, 101u8] }
pub open spec fn tok_multipart() -> Seq<u8> {
    seq![109u8, 117u8, 108u8, 116u8, 105u8, 112u8, 97u8, 114u8, 116u8]
}

/// discrete-type: the first of `text`, `image`, `audio`, `video`,
/// `application` that the bytes start with (case aside), else an extension token.
pub open spec fn spec_discrete_type(s: Seq<u8>, i: int) -> Result<((i32, Option<Seq<u8>>), int), MailError> {
    if let Ok(j) = spec_token_ci(s, i, tok_text()) {
        Ok(((1i32, None), j))
    } else if let Ok(j) = spec_token_ci(s, i, tok_image()) {
        Ok(((2i32, None), j))
    } else if let Ok(j) = spec_token_ci(s, i, tok_audio()) {
        Ok(((3i32, None), j))
    } else if let Ok(j) = spec_token_ci(s, i, tok_video()) {
        Ok(((4i32, None), j))
    } else if let Ok(j) = spec_token_ci(s, i, tok_application()) {
        Ok(((5i32, None), j))
    } else {
        match spec_mime_token(s, i) {
            Ok((t, j)) => Ok(((6i32, Some(t)), j)),
            Err(x) => Err(x),
        }
    }
}

pub fn mailmime_discrete_type_parse(message: &[u8], indx: usize) -> (r: Result<(mailmime_discrete_type, usize), MailError>)
    requires
        indx <= message@.len(),
    ensures
        match (r, spec_discrete_type(message@, indx as int)) {
            (Ok((d, j)), Ok(((t, x), k))) => d.dt_type == t && opt_bytes_view(d.dt_extension) == x && j == k,
            (Err(a), Err(b)) => a == b,
            _ => false,
        },
        r matches Ok((_, j)) ==> indx < j <= message@.len(),
{
    let t_text: [u8; 4] = [116, 101, 120, 116];
    let t_image: [u8; 5] = [105, 109, 97, 103, 101];
    let t_audio: [u8; 5] = [97, 117, 100, 105, 111];
    let t_video: [u8; 5] = [118, 105, 100, 101, 111];
    let t_app: [u8; 11] = [97, 112, 112, 108, 105, 99, 97, 116, 105, 111, 110];
    assert(t_text@ == tok_text());
    assert(t_image@ == tok_image());
    assert(t_audio@ == tok_audio());
    assert(t_video@ == tok_video());
    assert(t_app@ == tok_application());
    if let Ok(j) = mailimf_token_case_insensitive_len_parse(message, indx, &t_text) {
        return Ok((mailmime_discrete_type { dt_type: 1, dt_extension: None }, j));
    }
    if let Ok(j) = mailimf_token_case_insensitive_len_parse(message, indx, &t_image) {
        return Ok((mailmime_discrete_type { dt_type: 2, dt_extension: None }, j));
    }
    if let Ok(j) = mailimf_token_case_insensitive_len_parse(message, indx, &t_audio) {
        return Ok((mailmime_discrete_type { dt_type: 3, dt_extension: None }, j));
    }
    if let Ok(j) = mailimf_token_case_insensitive_len_parse(message, indx, &t_video) {
        return Ok((mailmime_discrete_type { dt_type: 4, dt_extension: None }, j));
    }
    if let Ok(j) = mailimf_token_case_insensitive_len_parse(message, indx, &t_app) {
        return Ok((mailmime_discrete_type { dt_type: 5, dt_extension: None }, j));
    }
    let (t, j) = mailmime_extension_token_parse(message, indx)?;
    Ok((mailmime_discrete_type { dt_type: 6, dt_extension: Some(t) }, j))
}

/// composite-type: `message` or `multipart` (case aside).
pub open spec fn spec_composite_type(s: Seq<u8>, i: int) -> Result<(i32, int), MailError> {
    if let Ok(j) = spec_token_ci(s, i, tok_message()) {
        Ok((1i32, j))
    } else if let Ok(j) = spec_token_ci(s, i, tok_multipart()) {
        Ok((2i32, j))
    } else {
        Err(MailError::Parse)
    }
}

pub fn mailmime_composite_type_parse(message: &[u8], indx: usize) -> (r: Result<(mailmime_composite_type, usize), MailError>)
    requires
        indx <= message@.len(),
    ensures
        match (r, spec_composite_type(message@, indx as int)) {
            (Ok((c, j)), Ok((t, k))) => c.ct_type == t && c.ct_token is None && j == k,
            (Err(a), Err(b)) => a == b,
            _ => false,
        },
        r matches Ok((_, j)) ==> indx < j <= message@.len(),
{
    let t_message: [u8; 7] = [109, 101, 115, 115, 97, 103, 101];
    let t_multipart: [u8; 9] = [109, 117, 108, 116, 105, 112, 97, 114, 116];
    assert(t_message@ == tok_message());
    assert(t_multipart@ == tok_multipart());
    if let Ok(j) = mailimf_token_case_insensitive_len_parse(message, indx, &t_message) {
        return Ok((mailmime_composite_type { ct_type: 1, ct_token: None }, j));
    }
    if let Ok(j) = mailimf_token_case_insensitive_len_parse(message, indx, &t_multipart) {
        return Ok((mailmime_composite_type { ct_type: 2, ct_token: None }, j));
    }
    Err(MailError::Parse)
}

/// type: a composite type, else a discrete type.
pub open spec fn spec_mime_type(s: Seq<u8>, i: int) -> Result<(MimeTypeView, int), MailError> {
    match spec_composite_type(s, i) {
        Ok((t, j)) => Ok((MimeTypeView::Composite(t, None), j)),
        Err(_) => match spec_discrete_type(s, i) {
            Ok(((t, x), j)) => Ok((MimeTypeView::Discrete(t, x), j)),
            Err(x) => Err(x),
        },
    }
}

pub fn mailmime_type_parse(message: &[u8], indx: usize) -> (r: Result<(mailmime_type, usize), MailError>)
    requires
        indx <= message@.len(),
    ensures
        res_view(r) == spec_mime_type(message@, indx as int),
        r matches Ok((_, j)) ==> indx < j <= message@.len(),
{
    match mailmime_composite_type_parse(message, indx) {
        Ok((c, j)) => Ok((mailmime_type::CompositeType(c), j)),
        Err(_) => {
            let (d, j) = mailmime_discrete_type_parse(message, indx)?;
            Ok((mailmime_type::DiscreteType(d), j))
        },
    }
}

/// The subtype given to a content type that has none: `unknown`.
pub open spec fn subtype_unknown() -> Seq<u8> {
    seq![117u8, 110u8, 107u8, 110u8, 111u8, 119u8, 110u8]
}

/// Parameters, each after a `;`, from `p` on; a `;` that no parameter follows
/// is left unread.
pub open spec fn spec_params_rest(s: Seq<u8>, p: int, acc: Seq<ParamView>) -> Result<(Seq<ParamView>, int), MailError>
    decreases s.len() - p,
{
    match spec_unstrict_char(s, p, 59) {
        Err(_) => Ok((acc, p)),
        Ok(k) => match spec_parameter(s, spec_skip_cfws(s, k)) {
            Ok((prm, e)) => if 0 <= p < e <= s.len() {
                spec_params_rest(s, e, acc.push(prm))
            } else {
                Err(MailError::Parse)
            },
            Err(MailError::Parse) => Ok((acc, p)),
            Err(x) => Err(x),
        },
    }
}

/// content: type `/` subtype, then parameters; with no `/`, the subtype is `unknown`.
pub open spec fn spec_content(s: Seq<u8>, i: int) -> Result<(ContentView, int), MailError> {
    match spec_mime_type(s, spec_skip_cfws(s, i)) {
        Err(x) => Err(x),
        Ok((ty, j)) => {
            let sub: Result<(Seq<u8>, int), MailError> = match spec_unstrict_char(s, j, 47) {
                Ok(k) => spec_mime_token(s, spec_skip_cfws(s, k)),
                Err(MailError::Parse) => Ok((subtype_unknown(), j)),
                Err(x) => Err(x),
            };
            match sub {
                Err(x) => Err(x),
                Ok((subtype, k)) => match spec_params_rest(s, k, Seq::empty()) {
                    Err(x) => Err(x),
                    Ok((params, e)) => Ok((ContentView { ty, subtype, params }, e)),
                },
            }
        },
    }
}

fn params_rest(message: &[u8], indx: usize) -> (r: Result<(Vec<mailmime_parameter>, usize), MailError>)
    requires
        indx <= message@.len(),
    ensures
        match (r, spec_params_rest(message@, indx as int, Seq::empty())) {
            (Ok((v, j)), Ok((w, k))) => params_view(v@) == w && j == k,
            (Err(a), Err(b)) => a == b,
            _ => false,
        },
        r matches Ok((_, j)) ==> indx <= j <= message@.len(),
{
    let ghost whole = spec_params_rest(message@, indx as int, Seq::empty());
    let mut list: Vec<mailmime_parameter> = Vec::new();
    assert(params_view(list@) =~= Seq::<ParamView>::empty());
    let mut cur: usize = indx;
    loop
        invariant
            indx <= cur <= message@.len(),
            whole == spec_params_rest(message@, indx as int, Seq::empty()),
            whole == spec_params_rest(message@, cur as int, params_view(list@)),
        decreases message@.len() - cur,
    {
        let k = match mailimf_unstrict_char_parse(message, cur, 59) {
            Ok(k) => k,
            Err(_) => return Ok((list, cur)),
        };
        let k2 = skip_cfws(message, k);
        match mailmime_parameter_parse(message, k2) {
            Ok((prm, e)) => {
                proof {
                    lemma_cfws(message@, k as int);
                }
                let ghost l0 = list@;
                let ghost pv = prm@;
                list.push(prm);
                assert(params_view(list@) =~= params_view(l0).push(pv));
                cur = e;
            },
            Err(MailError::Parse) => return Ok((list, cur)),
            Err(x) => return Err(x),
        }
    }
}

pub fn mailmime_content_parse(message: &[u8], indx: usize) -> (r: Result<(mailmime_content, usize), MailError>)
    requires
        indx <= message@.len(),
    ensures
        res_view(r) == spec_content(message@, indx as int),
        r matches Ok((_, j)) ==> indx < j <= message@.len(),
{
    let k0 = skip_cfws(message, indx);
    proof {
        lemma_cfws(message@, indx as int);
    }
    let (ty, j) = mailmime_type_parse(message, k0)?;
    let (subtype, k) = match mailimf_unstrict_char_parse(message, j, 47) {
        Ok(k) => {
            let k2 = skip_cfws(message, k);
            proof {
                lemma_cfws(message@, k as int);
            }
            mailmime_subtype_parse(message, k2)?
        },
        Err(MailError::Parse) => {
            let u: [u8; 7] = [117, 110, 107, 110, 111, 119, 110];
            assert(u@ == subtype_unknown());
            (vstd::slice::slice_to_vec(&u), j)
        },
        Err(x) => return Err(x),
    };
    let (params, e) = params_rest(message, k)?;
    Ok((mailmime_content_new(ty, subtype, params), e))
}

/// The value of the first parameter whose name equals `name` (case aside),
/// looking from the `k`-th parameter on.
pub open spec fn spec_param_from(ps: Seq<ParamView>, name: Seq<u8>, k: int) -> Option<Seq<u8>>
    decreases ps.len() - k,
{
    if k < 0 || k >= ps.len() {
        None
    } else if spec_ci_seq_eq(ps[k].name, name) {
        Some(ps[k].value)
    } else {
        spec_param_from(ps, name, k + 1)
    }
}

/// The value of the first parameter of a content type named `name` (case aside).
pub open spec fn spec_param_get(c: ContentView, name: Seq<u8>) -> Option<Seq<u8>> {
    spec_param_from(c.params, name, 0)
}

pub fn mailmime_content_param_get<'a>(content: &'a mailmime_content, name: &[u8]) -> (r: Option<&'a [u8]>)
    ensures
        match r {
            Some(v) => spec_param_get(content@, name@) == Some(v@),
            None => spec_param_get(content@, name@) is None,
        },
{
    let ghost ps = content@.params;
    let n = content.ct_parameters.len();
    let mut k: usize = 0;
    while k < n
        invariant
            n == content.ct_parameters@.len(),
            ps == content@.params,
            ps.len() == n,
            0 <= k <= n,
            spec_param_get(content@, name@) == spec_param_from(ps, name@, k as int),
        decreases n - k,
    {
        let p = &content.ct_parameters[k];
        assert(ps[k as int] == p@);
        if ci_seq_eq(p.pa_name.as_slice(), name) {
            return Some(p.pa_value.as_slice());
        }
        k = k + 1;
    }
    None
}

pub open spec fn param_charset() -> Seq<u8> { seq![99u8, 104u8, 97u8, 114u8, 115u8, 101u8, 116u8] }
pub open spec fn param_boundary() -> Seq<u8> { seq![98u8, 111u8, 117u8, 110u8, 100u8, 97u8, 114u8, 121u8] }
pub open spec fn charset_us_ascii() -> Seq<u8> { seq![117u8, 115u8, 45u8, 97u8, 115u8, 99u8, 105u8, 105u8] }

/// The character set of a content: its `charset` parameter, or `us-ascii`.
pub open spec fn spec_content_charset(c: ContentView) -> Seq<u8> {
    match spec_param_get(c, param_charset()) {
        Some(v) => v,
        None => charset_us_ascii(),
    }
}

pub fn mailmime_content_charset_get(content: &mailmime_content) -> (r: Vec<u8>)
    ensures
        r@ == spec_content_charset(content@),
{
    let name: [u8; 7] = [99, 104, 97, 114, 115, 101, 116];
    assert(name@ == param_charset());
    match mailmime_content_param_get(content, &name) {
        Some(v) => vstd::slice::slice_to_vec(v),
        None => {
            let d: [u8; 8] = [117, 115, 45, 97, 115, 99, 105, 105];
            assert(d@ == charset_us_ascii());
            vstd::slice::slice_to_vec(&d)
        },
    }
}

/// A boundary as given in a parameter, without its surrounding quotes when
/// it starts with one.
pub open spec fn spec_unquoted_boundary(b: Seq<u8>) -> Seq<u8> {
    if b.len() > 0 && b[0] == 34 {
        b.subrange(1, b.len() - 1)
    } else {
        b
    }
}

/// The `boundary` parameter of a content type, unquoted.
pub open spec fn spec_boundary(c: ContentView) -> Option<Seq<u8>> {
    match spec_param_get(c, param_boundary()) {
        Some(b) => Some(spec_unquoted_boundary(b)),
        None => None,
    }
}

/// A boundary parameter that is a lone quote, which cannot be unquoted.
pub open spec fn spec_lone_quote_boundary(c: ContentView) -> bool {
    spec_param_get(c, param_boundary()) matches Some(b) && b.len() == 1 && b[0] == 34
}

pub fn mailmime_extract_boundary(content: &mailmime_content) -> (r: Option<Vec<u8>>)
    requires
        !spec_lone_quote_boundary(content@),
    ensures
        opt_bytes_view(r) == spec_boundary(content@),
{
    let name: [u8; 8] = [98, 111, 117, 110, 100, 97, 114, 121];
    assert(name@ == param_boundary());
    match mailmime_content_param_get(content, &name) {
        Some(b) => {
            if b.len() > 0 && b[0] == 34 {
                let sub = vstd::slice::slice_subrange(b, 1, b.len() - 1);
                Some(vstd::slice::slice_to_vec(sub))
            } else {
                Some(vstd::slice::slice_to_vec(b))
            }
        },
        None => None,
    }
}

pub open spec fn subtype_plain() -> Seq<u8> { seq![112u8, 108u8, 97u8, 105u8, 110u8] }
pub open spec fn subtype_rfc822() -> Seq<u8> { seq![114u8, 102u8, 99u8, 56u8, 50u8, 50u8] }

/// The content type `text/plain`, with no parameters.
pub fn mailmime_get_content_text() -> (c: mailmime_content)
    ensures
        c@ == (ContentView { ty: MimeTypeView::Discrete(1, None), subtype: subtype_plain(), params: Seq::empty() }),
{
    let p: [u8; 5] = [112, 108, 97, 105, 110];
    assert(p@ == subtype_plain());
    let params: Vec<mailmime_parameter> = Vec::new();
    assert(params_view(params@) =~= Seq::<ParamView>::empty());
    mailmime_content_new(mailmime_type::DiscreteType(mailmime_discrete_type { dt_type: 1, dt_extension: None }),
        vstd::slice::slice_to_vec(&p), params)
}

/// The content type `message/rfc822`, with no parameters.
pub fn mailmime_get_content_message() -> (c: mailmime_content)
    ensures
        c@ == (ContentView { ty: MimeTypeView::Composite(1, None), subtype: subtype_rfc822(), params: Seq::empty() }),
{
    let p: [u8; 6] = [114, 102, 99, 56, 50, 50];
    assert(p@ == subtype_rfc822());
    let params: Vec<mailmime_parameter> = Vec::new();
    assert(params_view(params@) =~= Seq::<ParamView>::empty());
    mailmime_content_new(mailmime_type::CompositeType(mailmime_composite_type { ct_type: 1, ct_token: None }),
        vstd::slice::slice_to_vec(&p), params)
}


/// A new discrete type.
pub fn mailmime_discrete_type_new(dt_type: i32, dt_extension: Option<Vec<u8>>) -> (t: mailmime_discrete_type)
    ensures
        t.dt_type == dt_type,
        t.dt_extension == dt_extension,
{
    mailmime_discrete_type { dt_type, dt_extension }
}

/// A new composite type.
pub fn mailmime_composite_type_new(ct_type: i32, ct_token: Option<Vec<u8>>) -> (t: mailmime_composite_type)
    ensures
        t.ct_type == ct_type,
        t.ct_token == ct_token,
{
    mailmime_composite_type { ct_type, ct_token }
}

/// A new type: the discrete one for `MAILMIME_TYPE_DISCRETE_TYPE`, the
/// composite one for `MAILMIME_TYPE_COMPOSITE_TYPE`; none when the kind is
/// another number or its part is missing.
pub fn mailmime_type_new(tp_type: i32, tp_discrete_type: Option<mailmime_discrete_type>, tp_composite_type: Option<mailmime_composite_type>) -> (t: Option<mailmime_type>)
    ensures
        t == (if tp_type == MAILMIME_TYPE_DISCRETE_TYPE && tp_discrete_type is Some {
            Some(mailmime_type::DiscreteType(tp_discrete_type.unwrap()))
        } else if tp_type == MAILMIME_TYPE_COMPOSITE_TYPE && tp_composite_type is Some {
            Some(mailmime_type::CompositeType(tp_composite_type.unwrap()))
        } else {
            None
        }),
{
    if tp_type == MAILMIME_TYPE_DISCRETE_TYPE {
        match tp_discrete_type {
            Some(d) => Some(mailmime_type::DiscreteType(d)),
            None => None,
        }
    } else if tp_type == MAILMIME_TYPE_COMPOSITE_TYPE {
        match tp_composite_type {
            Some(c) => Some(mailmime_type::CompositeType(c)),
            None => None,
        }
    } else {
        None
    }
}

/// The discrete types by name: the bytes `text`, `image`, `audio`, `video`
/// or `application` (any case) give types 1 to 5, each its own, and read the
/// name; a type among 1 to 5 is given only for its own name, and anything
/// else that is read is an extension token (type 6).
pub proof fn law_discrete_type_names(s: Seq<u8>, i: int)
    ensures
        spec_ci_prefix(s, i, seq![116u8, 101u8, 120u8, 116u8])
            ==> spec_discrete_type(s, i) == Ok::<((i32, Option<Seq<u8>>), int), MailError>(((1i32, None), i + 4)),
        spec_ci_prefix(s, i, seq![105u8, 109u8, 97u8, 103u8, 101u8])
            ==> spec_discrete_type(s, i) == Ok::<((i32, Option<Seq<u8>>), int), MailError>(((2i32, None), i + 5)),
        spec_ci_prefix(s, i, seq![97u8, 117u8, 100u8, 105u8, 111u8])
            ==> spec_discrete_type(s, i) == Ok::<((i32, Option<Seq<u8>>), int), MailError>(((3i32, None), i + 5)),
        spec_ci_prefix(s, i, seq![118u8, 105u8, 100u8, 101u8, 111u8])
            ==> spec_discrete_type(s, i) == Ok::<((i32, Option<Seq<u8>>), int), MailError>(((4i32, None), i + 5)),
        spec_ci_prefix(s, i, seq![97u8, 112u8, 112u8, 108u8, 105u8, 99u8, 97u8, 116u8, 105u8, 111u8, 110u8])
            ==> spec_discrete_type(s, i) == Ok::<((i32, Option<Seq<u8>>), int), MailError>(((5i32, None), i + 11)),
        spec_discrete_type(s, i) matches Ok(((t, x), _)) ==> {
            &&& 1 <= t <= 6
            &&& (x is Some <==> t == 6)
            &&& (t == 1 ==> spec_ci_prefix(s, i, seq![116u8, 101u8, 120u8, 116u8]))
            &&& (t == 2 ==> spec_ci_prefix(s, i, seq![105u8, 109u8, 97u8, 103u8, 101u8]))
            &&& (t == 3 ==> spec_ci_prefix(s, i, seq![97u8, 117u8, 100u8, 105u8, 111u8]))
            &&& (t == 4 ==> spec_ci_prefix(s, i, seq![118u8, 105u8, 100u8, 101u8, 111u8]))
            &&& (t == 5 ==> spec_ci_prefix(s, i, seq![97u8, 112u8, 112u8, 108u8, 105u8, 99u8, 97u8, 116u8, 105u8, 111u8, 110u8]))
        },
{
    let text = seq![116u8, 101u8, 120u8, 116u8];
    let image = seq![105u8, 109u8, 97u8, 103u8, 101u8];
    let audio = seq![97u8, 117u8, 100u8, 105u8, 111u8];
    let video = seq![118u8, 105u8, 100u8, 101u8, 111u8];
    let app = seq![97u8, 112u8, 112u8, 108u8, 105u8, 99u8, 97u8, 116u8, 105u8, 111u8, 110u8];
    assert(tok_text() == text && tok_image() == image && tok_audio() == audio && tok_video() == video
        && tok_application() == app);
    if spec_ci_prefix(s, i, text) { lemma_ci_prefix_byte(s, i, text, 0); }
    if spec_ci_prefix(s, i, image) { lemma_ci_prefix_byte(s, i, image, 0); }
    if spec_ci_prefix(s, i, audio) { lemma_ci_prefix_byte(s, i, audio, 0); lemma_ci_prefix_byte(s, i, audio, 1); }
    if spec_ci_prefix(s, i, video) { lemma_ci_prefix_byte(s, i, video, 0); }
    if spec_ci_prefix(s, i, app) { lemma_ci_prefix_byte(s, i, app, 0); lemma_ci_prefix_byte(s, i, app, 1); }
}

/// The composite types by name: `message` (any case) gives 1 and
/// `multipart` gives 2; each is given only for its own name.
pub proof fn law_composite_type_names(s: Seq<u8>, i: int)
    ensures
        spec_ci_prefix(s, i, seq![109u8, 101u8, 115u8, 115u8, 97u8, 103u8, 101u8])
            ==> spec_composite_type(s, i) == Ok::<(i32, int), MailError>((1i32, i + 7)),
        spec_ci_prefix(s, i, seq![109u8, 117u8, 108u8, 116u8, 105u8, 112u8, 97u8, 114u8, 116u8])
            ==> spec_composite_type(s, i) == Ok::<(i32, int), MailError>((2i32, i + 9)),
        spec_composite_type(s, i) matches Ok((t, _)) ==> {
            &&& (t == 1 || t == 2)
            &&& (t == 1 ==> spec_ci_prefix(s, i, seq![109u8, 101u8, 115u8, 115u8, 97u8, 103u8, 101u8]))
            &&& (t == 2 ==> spec_ci_prefix(s, i, seq![109u8, 117u8, 108u8, 116u8, 105u8, 112u8, 97u8, 114u8, 116u8]))
        },
{
    let msg = seq![109u8, 101u8, 115u8, 115u8, 97u8, 103u8, 101u8];
    let mp = seq![109u8, 117u8, 108u8, 116u8, 105u8, 112u8, 97u8, 114u8, 116u8];
    assert(tok_message() == msg && tok_multipart() == mp);
    if spec_ci_prefix(s, i, msg) { lemma_ci_prefix_byte(s, i, msg, 1); }
    if spec_ci_prefix(s, i, mp) { lemma_ci_prefix_byte(s, i, mp, 1); }
}

} // verus!
