//! The Content-Disposition field (RFC 2183): a disposition type and its
//! parameters.

use vstd::prelude::*;
use crate::MailError;
use crate::res_view;
use crate::chars::to_upper;
use crate::chars::spec_to_upper;
use crate::lex::{spec_ci_prefix, lemma_ci_prefix_byte, spec_skip_cfws, spec_unstrict_char, spec_token_ci, spec_number,
    skip_cfws, mailimf_unstrict_char_parse, mailimf_token_case_insensitive_len_parse,
    mailimf_number_parse};
use crate::words::{spec_quoted_string, mailimf_quoted_string_parse};
use crate::address::opt_bytes_view;
use crate::mime_fields::{mailmime_parameter, ParamView, spec_mime_token, spec_mime_value,
    spec_parameter, mailmime_extension_token_parse, mailmime_value_parse, mailmime_parameter_parse};

verus! {

pub const MAILMIME_DISPOSITION_TYPE_ERROR: i32 = 0;
pub const MAILMIME_DISPOSITION_TYPE_INLINE: i32 = 1;
pub const MAILMIME_DISPOSITION_TYPE_ATTACHMENT: i32 = 2;
pub const MAILMIME_DISPOSITION_TYPE_EXTENSION: i32 = 3;

pub const MAILMIME_DISPOSITION_PARM_FILENAME: i32 = 0;
pub const MAILMIME_DISPOSITION_PARM_CREATION_DATE: i32 = 1;
pub const MAILMIME_DISPOSITION_PARM_MODIFICATION_DATE: i32 = 2;
pub const MAILMIME_DISPOSITION_PARM_READ_DATE: i32 = 3;
pub const MAILMIME_DISPOSITION_PARM_SIZE: i32 = 4;
pub const MAILMIME_DISPOSITION_PARM_PARAMETER: i32 = 5;

/// `inline`, `attachment` or an extension token.
#[allow(non_camel_case_types)]
pub struct mailmime_disposition_type {
    pub dsp_type: i32,
    pub dsp_extension: Option<Vec<u8>>,
}

impl View for mailmime_disposition_type {
    type V = (i32, Option<Seq<u8>>);

    open spec fn view(&self) -> (i32, Option<Seq<u8>>) {
        (self.dsp_type, opt_bytes_view(self.dsp_extension))
    }
}

pub fn mailmime_disposition_type_new(dsp_type: i32, dsp_extension: Option<Vec<u8>>) -> (t: mailmime_disposition_type)
    ensures
        t@ == (dsp_type, opt_bytes_view(dsp_extension)),
{
    mailmime_disposition_type { dsp_type, dsp_extension }
}

/// A parameter of a disposition.
#[allow(non_camel_case_types)]
pub enum mailmime_disposition_parm {
    Filename(Vec<u8>),
    CreationDate(Vec<u8>),
    ModificationDate(Vec<u8>),
    ReadDate(Vec<u8>),
    Size(usize),
    Parameter(mailmime_parameter),
}

pub enum DispParmView {
    Filename(Seq<u8>),
    CreationDate(Seq<u8>),
    ModificationDate(Seq<u8>),
    ReadDate(Seq<u8>),
    Size(usize),
    Parameter(ParamView),
}

impl View for mailmime_disposition_parm {
    type V = DispParmView;

    open spec fn view(&self) -> DispParmView {
        match self {
            mailmime_disposition_parm::Filename(v) => DispParmView::Filename(v@),
            mailmime_disposition_parm::CreationDate(v) => DispParmView::CreationDate(v@),
            mailmime_disposition_parm::ModificationDate(v) => DispParmView::ModificationDate(v@),
            mailmime_disposition_parm::ReadDate(v) => DispParmView::ReadDate(v@),
            mailmime_disposition_parm::Size(n) => DispParmView::Size(*n),
            mailmime_disposition_parm::Parameter(p) => DispParmView::Parameter(p@),
        }
    }
}

/// The number of a parameter's kind (one of the `MAILMIME_DISPOSITION_PARM_*` constants).
pub open spec fn spec_parm_type(p: DispParmView) -> i32 {
    match p {
        DispParmView::Filename(_) => 0,
        DispParmView::CreationDate(_) => 1,
        DispParmView::ModificationDate(_) => 2,
        DispParmView::ReadDate(_) => 3,
        DispParmView::Size(_) => 4,
        DispParmView::Parameter(_) => 5,
    }
}

impl mailmime_disposition_parm {
    /// The number of the parameter's kind.
    pub fn pa_type(&self) -> (t: i32)
        ensures
            t == spec_parm_type(self@),
    {
        match self {
            mailmime_disposition_parm::Filename(_) => 0,
            mailmime_disposition_parm::CreationDate(_) => 1,
            mailmime_disposition_parm::ModificationDate(_) => 2,
            mailmime_disposition_parm::ReadDate(_) => 3,
            mailmime_disposition_parm::Size(_) => 4,
            mailmime_disposition_parm::Parameter(_) => 5,
        }
    }
}

pub open spec fn parms_view(v: Seq<mailmime_disposition_parm>) -> Seq<DispParmView> {
    v.map_values(|p: mailmime_disposition_parm| p@)
}

/// A disposition: its type and its parameters.
#[allow(non_camel_case_types)]
pub struct mailmime_disposition {
    pub dsp_type: mailmime_disposition_type,
    pub dsp_parms: Vec<mailmime_disposition_parm>,
}

pub struct DispositionView {
    pub ty: (i32, Option<Seq<u8>>),
    pub parms: Seq<DispParmView>,
}

impl View for mailmime_disposition {
    type V = DispositionView;

    open spec fn view(&self) -> DispositionView {
        DispositionView { ty: self.dsp_type@, parms: parms_view(self.dsp_parms@) }
    }
}

pub fn mailmime_disposition_new(dsp_type: mailmime_disposition_type, dsp_parms: Vec<mailmime_disposition_parm>) -> (d: mailmime_disposition)
    ensures
        d@ == (DispositionView { ty: dsp_type@, parms: parms_view(dsp_parms@) }),
{
    mailmime_disposition { dsp_type, dsp_parms }
}

/// The kind of parameter that the first letter at `i` points to (a guess,
/// which the parameter's parser then checks).
pub open spec fn spec_disposition_guess_type(s: Seq<u8>, i: int) -> i32 {
    if 0 <= i < s.len() {
        let c = spec_to_upper(s[i]);
        if c == 70 { 0 } else if c == 67 { 1 } else if c == 77 { 2 } else if c == 82 { 3 } else if c == 83 { 4 } else { 5 }
    } else {
        5
    }
}

pub fn mailmime_disposition_guess_type(message: &[u8], indx: usize) -> (t: i32)
    ensures
        t == spec_disposition_guess_type(message@, indx as int),
{
    if indx >= message.len() {
        return 5;
    }
    let c = to_upper(message[indx]);
    if c == 70 { 0 } else if c == 67 { 1 } else if c == 77 { 2 } else if c == 82 { 3 } else if c == 83 { 4 } else { 5 }
}

pub open spec fn name_of_parm(g: i32) -> Seq<u8> {
    if g == 0 {
        seq![102u8, 105u8, 108u8, 101u8, 110u8, 97u8, 109u8, 101u8]
    } else if g == 1 {
        seq![99u8, 114u8, 101u8, 97u8, 116u8, 105u8, 111u8, 110u8, 45u8, 100u8, 97u8, 116u8, 101u8]
    } else if g == 2 {
        seq![109u8, 111u8, 100u8, 105u8, 102u8, 105u8, 99u8, 97u8, 116u8, 105u8, 111u8, 110u8, 45u8, 100u8, 97u8, 116u8, 101u8]
    } else if g == 3 {
        seq![114u8, 101u8, 97u8, 100u8, 45u8, 100u8, 97u8, 116u8, 101u8]
    } else {
        seq![115u8, 105u8, 122u8, 101u8]
    }
}

/// `name =` and optional CFWS; gives where the value starts.
pub open spec fn spec_parm_head(s: Seq<u8>, i: int, g: i32) -> Result<int, MailError> {
    match spec_token_ci(s, i, name_of_parm(g)) {
        Err(x) => Err(x),
        Ok(j) => match spec_unstrict_char(s, j, 61) {
            Err(x) => Err(x),
            Ok(k) => Ok(spec_skip_cfws(s, k)),
        },
    }
}

fn parm_head(message: &[u8], indx: usize, g: i32) -> (r: Result<usize, MailError>)
    requires
        indx <= message@.len(),
        0 <= g <= 4,
    ensures
        crate::pos_view(r) == spec_parm_head(message@, indx as int, g),
        r matches Ok(j) ==> indx < j <= message@.len(),
{
    let n_file: [u8; 8] = [102, 105, 108, 101, 110, 97, 109, 101];
    let n_creat: [u8; 13] = [99, 114, 101, 97, 116, 105, 111, 110, 45, 100, 97, 116, 101];
    let n_modif: [u8; 17] = [109, 111, 100, 105, 102, 105, 99, 97, 116, 105, 111, 110, 45, 100, 97, 116, 101];
    let n_read: [u8; 9] = [114, 101, 97, 100, 45, 100, 97, 116, 101];
    let n_size: [u8; 4] = [115, 105, 122, 101];
    let j = if g == 0 {
        assert(n_file@ == name_of_parm(g));
        mailimf_token_case_insensitive_len_parse(message, indx, &n_file)?
    } else if g == 1 {
        assert(n_creat@ == name_of_parm(g));
        mailimf_token_case_insensitive_len_parse(message, indx, &n_creat)?
    } else if g == 2 {
        assert(n_modif@ == name_of_parm(g));
        mailimf_token_case_insensitive_len_parse(message, indx, &n_modif)?
    } else if g == 3 {
        assert(n_read@ == name_of_parm(g));
        mailimf_token_case_insensitive_len_parse(message, indx, &n_read)?
    } else {
        assert(n_size@ == name_of_parm(g));
        mailimf_token_case_insensitive_len_parse(message, indx, &n_size)?
    };
    let k = mailimf_unstrict_char_parse(message, j, 61)?;
    Ok(skip_cfws(message, k))
}

/// The parameter of kind `g` (0 to 4) at `i`: a file name is a value, a date a
/// quoted string, a size a number.
pub open spec fn spec_typed_parm(s: Seq<u8>, i: int, g: i32) -> Result<(DispParmView, int), MailError> {
    match spec_parm_head(s, i, g) {
        Err(x) => Err(x),
        Ok(k) => if g == 0 {
            match spec_mime_value(s, k) {
                Ok((v, e)) => Ok((DispParmView::Filename(v), e)),
                Err(x) => Err(x),
            }
        } else if g == 4 {
            match spec_number(s, k) {
                Ok((n, e)) => Ok((DispParmView::Size(n as usize), e)),
                Err(x) => Err(x),
            }
        } else {
            match spec_quoted_string(s, k) {
                Ok((v, e)) => Ok((if g == 1 {
                    DispParmView::CreationDate(v)
                } else if g == 2 {
                    DispParmView::ModificationDate(v)
                } else {
                    DispParmView::ReadDate(v)
                }, e)),
                Err(x) => Err(x),
            }
        },
    }
}

fn typed_parm(message: &[u8], indx: usize, g: i32) -> (r: Result<(mailmime_disposition_parm, usize), MailError>)
    requires
        indx <= message@.len(),
        0 <= g <= 4,
    ensures
        res_view(r) == spec_typed_parm(message@, indx as int, g),
        r matches Ok((_, j)) ==> indx < j <= message@.len(),
{
    let k = parm_head(message, indx, g)?;
    if g == 0 {
        let (v, e) = mailmime_value_parse(message, k)?;
        Ok((mailmime_disposition_parm::Filename(v), e))
    } else if g == 4 {
        let (n, e) = mailimf_number_parse(message, k)?;
        Ok((mailmime_disposition_parm::Size(n as usize), e))
    } else {
        let (v, e) = mailimf_quoted_string_parse(message, k)?;
        if g == 1 {
            Ok((mailmime_disposition_parm::CreationDate(v), e))
        } else if g == 2 {
            Ok((mailmime_disposition_parm::ModificationDate(v), e))
        } else {
            Ok((mailmime_disposition_parm::ReadDate(v), e))
        }
    }
}

/// disposition-parm: after optional CFWS, the parameter that the first letter
/// points to; when that one cannot be read, a plain parameter.
pub open spec fn spec_disposition_parm(s: Seq<u8>, i: int) -> Result<(DispParmView, int), MailError> {
    let k = spec_skip_cfws(s, i);
    let g = spec_disposition_guess_type(s, k);
    let typed: Result<Option<(DispParmView, int)>, MailError> = if g == 5 {
        Ok(None)
    } else {
        match spec_typed_parm(s, k, g) {
            Ok(pe) => Ok(Some(pe)),
            Err(MailError::Parse) => Ok(None),
            Err(x) => Err(x),
        }
    };
    match typed {
        Err(x) => Err(x),
        Ok(Some(pe)) => Ok(pe),
        Ok(None) => match spec_parameter(s, k) {
            Ok((p, e)) => Ok((DispParmView::Parameter(p), e)),
            Err(x) => Err(x),
        },
    }
}

pub fn mailmime_disposition_parm_parse(message: &[u8], indx: usize) -> (r: Result<(mailmime_disposition_parm, usize), MailError>)
    requires
        indx <= message@.len(),
    ensures
        res_view(r) == spec_disposition_parm(message@, indx as int),
        r matches Ok((_, j)) ==> indx < j <= message@.len(),
{
    let k = skip_cfws(message, indx);
    let g = mailmime_disposition_guess_type(message, k);
    if g != 5 {
        match typed_parm(message, k, g) {
            Ok(pe) => return Ok(pe),
            Err(MailError::Parse) => {},
            Err(x) => return Err(x),
        }
    }
    let (p, e) = mailmime_parameter_parse(message, k)?;
    Ok((mailmime_disposition_parm::Parameter(p), e))
}

pub open spec fn tok_inline() -> Seq<u8> { seq![105u8, 110u8, 108u8, 105u8, 110u8, 101u8] }
pub open spec fn tok_attachment() -> Seq<u8> {
    seq![97u8, 116u8, 116u8, 97u8, 99u8, 104u8, 109u8, 101u8, 110u8, 116u8]
}

/// disposition-type: after optional CFWS, `inline` or `attachment` (case
/// aside), else an extension token.
pub open spec fn spec_disposition_type(s: Seq<u8>, i: int) -> Result<((i32, Option<Seq<u8>>), int), MailError> {
    let k = spec_skip_cfws(s, i);
    if let Ok(j) = spec_token_ci(s, k, tok_inline()) {
        Ok(((1i32, None), j))
    } else if let Ok(j) = spec_token_ci(s, k, tok_attachment()) {
        Ok(((2i32, None), j))
    } else {
        match spec_mime_token(s, k) {
            Ok((t, j)) => Ok(((3i32, Some(t)), j)),
            Err(x) => Err(x),
        }
    }
}

pub fn mailmime_disposition_type_parse(message: &[u8], indx: usize) -> (r: Result<(mailmime_disposition_type, usize), MailError>)
    requires
        indx <= message@.len(),
    ensures
        res_view(r) == spec_disposition_type(message@, indx as int),
        r matches Ok((_, j)) ==> indx <= j <= message@.len(),
{
    let k = skip_cfws(message, indx);
    let t_inline: [u8; 6] = [105, 110, 108, 105, 110, 101];
    let t_attach: [u8; 10] = [97, 116, 116, 97, 99, 104, 109, 101, 110, 116];
    assert(t_inline@ == tok_inline());
    assert(t_attach@ == tok_attachment());
    if let Ok(j) = mailimf_token_case_insensitive_len_parse(message, k, &t_inline) {
        return Ok((mailmime_disposition_type_new(1, None), j));
    }
    if let Ok(j) = mailimf_token_case_insensitive_len_parse(message, k, &t_attach) {
        return Ok((mailmime_disposition_type_new(2, None), j));
    }
    let (t, j) = mailmime_extension_token_parse(message, k)?;
    Ok((mailmime_disposition_type_new(3, Some(t)), j))
}

/// Disposition parameters, each after a `;`, from `p` on; a `;` that no
/// parameter follows is left unread.
pub open spec fn spec_dsp_parms_rest(s: Seq<u8>, p: int, acc: Seq<DispParmView>) -> Result<(Seq<DispParmView>, int), MailError>
    decreases s.len() - p,
{
    match spec_unstrict_char(s, p, 59) {
        Err(MailError::Parse) => Ok((acc, p)),
        Err(x) => Err(x),
        Ok(k) => match spec_disposition_parm(s, k) {
            Ok((prm, e)) => if 0 <= p < e <= s.len() {
                spec_dsp_parms_rest(s, e, acc.push(prm))
            } else {
                Err(MailError::Parse)
            },
            Err(MailError::Parse) => Ok((acc, p)),
            Err(x) => Err(x),
        },
    }
}

/// disposition: a disposition type, then its parameters.
pub open spec fn spec_disposition(s: Seq<u8>, i: int) -> Result<(DispositionView, int), MailError> {
    match spec_disposition_type(s, i) {
        Err(x) => Err(x),
        Ok((ty, j)) => match spec_dsp_parms_rest(s, j, Seq::empty()) {
            Err(x) => Err(x),
            Ok((parms, e)) => Ok((DispositionView { ty, parms }, e)),
        },
    }
}

pub fn mailmime_disposition_parse(message: &[u8], indx: usize) -> (r: Result<(mailmime_disposition, usize), MailError>)
    requires
        indx <= message@.len(),
    ensures
        res_view(r) == spec_disposition(message@, indx as int),
        r matches Ok((_, j)) ==> indx <= j <= message@.len(),
{
    let (ty, j) = mailmime_disposition_type_parse(message, indx)?;
    let ghost whole = spec_dsp_parms_rest(message@, j as int, Seq::empty());
    let mut list: Vec<mailmime_disposition_parm> = Vec::new();
    assert(parms_view(list@) =~= Seq::<DispParmView>::empty());
    let mut cur: usize = j;
    loop
        invariant
            j <= cur <= message@.len(),
            whole == spec_dsp_parms_rest(message@, j as int, Seq::empty()),
            whole == spec_dsp_parms_rest(message@, cur as int, parms_view(list@)),
        ensures
            j <= cur <= message@.len(),
            whole == Ok::<(Seq<DispParmView>, int), MailError>((parms_view(list@), cur as int)),
        decreases message@.len() - cur,
    {
        let k = match mailimf_unstrict_char_parse(message, cur, 59) {
            Ok(k) => k,
            Err(MailError::Parse) => break,
            Err(x) => return Err(x),
        };
        match mailmime_disposition_parm_parse(message, k) {
            Ok((prm, e)) => {
                let ghost l0 = list@;
                let ghost pv = prm@;
                list.push(prm);
                assert(parms_view(list@) =~= parms_view(l0).push(pv));
                cur = e;
            },
            Err(MailError::Parse) => break,
            Err(x) => return Err(x),
        }
    }
    Ok((mailmime_disposition_new(ty, list), cur))
}


/// A new disposition parameter of kind `pa_type`, from the argument of that
/// kind; none when the kind is another number or its argument is missing.
pub fn mailmime_disposition_parm_new(
    pa_type: i32,
    pa_filename: Option<Vec<u8>>,
    pa_creation_date: Option<Vec<u8>>,
    pa_modification_date: Option<Vec<u8>>,
    pa_read_date: Option<Vec<u8>>,
    pa_size: usize,
    pa_parameter: Option<mailmime_parameter>,
) -> (p: Option<mailmime_disposition_parm>)
    ensures
        p == (if pa_type == MAILMIME_DISPOSITION_PARM_FILENAME && pa_filename is Some {
            Some(mailmime_disposition_parm::Filename(pa_filename.unwrap()))
        } else if pa_type == MAILMIME_DISPOSITION_PARM_CREATION_DATE && pa_creation_date is Some {
            Some(mailmime_disposition_parm::CreationDate(pa_creation_date.unwrap()))
        } else if pa_type == MAILMIME_DISPOSITION_PARM_MODIFICATION_DATE && pa_modification_date is Some {
            Some(mailmime_disposition_parm::ModificationDate(pa_modification_date.unwrap()))
        } else if pa_type == MAILMIME_DISPOSITION_PARM_READ_DATE && pa_read_date is Some {
            Some(mailmime_disposition_parm::ReadDate(pa_read_date.unwrap()))
        } else if pa_type == MAILMIME_DISPOSITION_PARM_SIZE {
            Some(mailmime_disposition_parm::Size(pa_size))
        } else if pa_type == MAILMIME_DISPOSITION_PARM_PARAMETER && pa_parameter is Some {
            Some(mailmime_disposition_parm::Parameter(pa_parameter.unwrap()))
        } else {
            None
        }),
{
    if pa_type == MAILMIME_DISPOSITION_PARM_FILENAME {
        match pa_filename { Some(v) => Some(mailmime_disposition_parm::Filename(v)), None => None }
    } else if pa_type == MAILMIME_DISPOSITION_PARM_CREATION_DATE {
        match pa_creation_date { Some(v) => Some(mailmime_disposition_parm::CreationDate(v)), None => None }
    } else if pa_type == MAILMIME_DISPOSITION_PARM_MODIFICATION_DATE {
        match pa_modification_date { Some(v) => Some(mailmime_disposition_parm::ModificationDate(v)), None => None }
    } else if pa_type == MAILMIME_DISPOSITION_PARM_READ_DATE {
        match pa_read_date { Some(v) => Some(mailmime_disposition_parm::ReadDate(v)), None => None }
    } else if pa_type == MAILMIME_DISPOSITION_PARM_SIZE {
        Some(mailmime_disposition_parm::Size(pa_size))
    } else if pa_type == MAILMIME_DISPOSITION_PARM_PARAMETER {
        match pa_parameter { Some(v) => Some(mailmime_disposition_parm::Parameter(v)), None => None }
    } else {
        None
    }
}

/// The disposition types by name: after optional CFWS, `inline` (any case)
/// gives type 1 and `attachment` gives type 2, reading the name; type 1 is
/// given only for `inline`, type 2 only for `attachment`, and anything else
/// that is read is an extension token (type 3).
pub proof fn law_disposition_type_names(s: Seq<u8>, i: int)
    ensures
        spec_ci_prefix(s, spec_skip_cfws(s, i), seq![105u8, 110u8, 108u8, 105u8, 110u8, 101u8])
            ==> spec_disposition_type(s, i) == Ok::<((i32, Option<Seq<u8>>), int), MailError>(((1i32, None), spec_skip_cfws(s, i) + 6)),
        spec_ci_prefix(s, spec_skip_cfws(s, i), seq![97u8, 116u8, 116u8, 97u8, 99u8, 104u8, 109u8, 101u8, 110u8, 116u8])
            ==> spec_disposition_type(s, i) == Ok::<((i32, Option<Seq<u8>>), int), MailError>(((2i32, None), spec_skip_cfws(s, i) + 10)),
        spec_disposition_type(s, i) matches Ok(((t, x), _)) ==> {
            &&& 1 <= t <= 3
            &&& (x is Some <==> t == 3)
            &&& (t == 1 ==> spec_ci_prefix(s, spec_skip_cfws(s, i), seq![105u8, 110u8, 108u8, 105u8, 110u8, 101u8]))
            &&& (t == 2 ==> spec_ci_prefix(s, spec_skip_cfws(s, i), seq![97u8, 116u8, 116u8, 97u8, 99u8, 104u8, 109u8, 101u8, 110u8, 116u8]))
        },
{
    let k = spec_skip_cfws(s, i);
    let inl = seq![105u8, 110u8, 108u8, 105u8, 110u8, 101u8];
    let att = seq![97u8, 116u8, 116u8, 97u8, 99u8, 104u8, 109u8, 101u8, 110u8, 116u8];
    assert(tok_inline() == inl && tok_attachment() == att);
    if spec_ci_prefix(s, k, inl) { lemma_ci_prefix_byte(s, k, inl, 0); }
    if spec_ci_prefix(s, k, att) { lemma_ci_prefix_byte(s, k, att, 0); }
}

} // verus!
