//! The header of a message as a list of fields, and the message itself.

use vstd::prelude::*;
use crate::MailError;
use crate::res_view;
use crate::lex::{spec_token_ci, spec_crlf, mailimf_token_case_insensitive_len_parse,
    mailimf_crlf_parse, copy_range};
use crate::chars::to_upper;
use crate::date::{up_at, mailimf_date_time};
use crate::address::{MailboxView, AddressView};
use crate::fields::{HeaderName, OptionalFieldView, mailimf_bcc, mailimf_bcc_parse, mailimf_cc, mailimf_cc_parse, mailimf_comments, mailimf_comments_parse, mailimf_from, mailimf_from_parse, mailimf_in_reply_to, mailimf_in_reply_to_parse, mailimf_keywords, mailimf_keywords_parse, mailimf_message_id, mailimf_message_id_parse, mailimf_optional_field, mailimf_optional_field_parse, mailimf_orig_date, mailimf_orig_date_parse, mailimf_references, mailimf_references_parse, mailimf_reply_to, mailimf_reply_to_parse, mailimf_resent_bcc_parse, mailimf_resent_cc_parse, mailimf_resent_date_parse, mailimf_resent_from_parse, mailimf_resent_msg_id_parse, mailimf_resent_sender_parse, mailimf_resent_to_parse, mailimf_return, mailimf_return_parse, mailimf_sender, mailimf_sender_parse, mailimf_subject, mailimf_subject_parse, mailimf_to, mailimf_to_parse, spec_addr_field_k, spec_bcc_k, spec_from_k, spec_keywords, spec_message_id_k, spec_msg_ids_k, spec_optional_field, spec_orig_date_k, spec_return, spec_sender_k, spec_text_field_k};

verus! {

pub const MAILIMF_FIELD_NONE: i32 = 0;
pub const MAILIMF_FIELD_RETURN_PATH: i32 = 1;
pub const MAILIMF_FIELD_RESENT_DATE: i32 = 2;
pub const MAILIMF_FIELD_RESENT_FROM: i32 = 3;
pub const MAILIMF_FIELD_RESENT_SENDER: i32 = 4;
pub const MAILIMF_FIELD_RESENT_TO: i32 = 5;
pub const MAILIMF_FIELD_RESENT_CC: i32 = 6;
pub const MAILIMF_FIELD_RESENT_BCC: i32 = 7;
pub const MAILIMF_FIELD_RESENT_MSG_ID: i32 = 8;
pub const MAILIMF_FIELD_ORIG_DATE: i32 = 9;
pub const MAILIMF_FIELD_FROM: i32 = 10;
pub const MAILIMF_FIELD_SENDER: i32 = 11;
pub const MAILIMF_FIELD_REPLY_TO: i32 = 12;
pub const MAILIMF_FIELD_TO: i32 = 13;
pub const MAILIMF_FIELD_CC: i32 = 14;
pub const MAILIMF_FIELD_BCC: i32 = 15;
pub const MAILIMF_FIELD_MESSAGE_ID: i32 = 16;
pub const MAILIMF_FIELD_IN_REPLY_TO: i32 = 17;
pub const MAILIMF_FIELD_REFERENCES: i32 = 18;
pub const MAILIMF_FIELD_SUBJECT: i32 = 19;
pub const MAILIMF_FIELD_COMMENTS: i32 = 20;
pub const MAILIMF_FIELD_KEYWORDS: i32 = 21;
pub const MAILIMF_FIELD_OPTIONAL_FIELD: i32 = 22;

/// A header field.
#[allow(non_camel_case_types)]
pub enum mailimf_field {
    ReturnPath(mailimf_return),
    ResentDate(mailimf_orig_date),
    ResentFrom(mailimf_from),
    ResentSender(mailimf_sender),
    ResentTo(mailimf_to),
    ResentCc(mailimf_cc),
    ResentBcc(mailimf_bcc),
    ResentMsgId(mailimf_message_id),
    OrigDate(mailimf_orig_date),
    From(mailimf_from),
    Sender(mailimf_sender),
    ReplyTo(mailimf_reply_to),
    To(mailimf_to),
    Cc(mailimf_cc),
    Bcc(mailimf_bcc),
    MessageId(mailimf_message_id),
    InReplyTo(mailimf_in_reply_to),
    References(mailimf_references),
    Subject(mailimf_subject),
    Comments(mailimf_comments),
    Keywords(mailimf_keywords),
    OptionalField(mailimf_optional_field),
}

pub enum FieldView {
    ReturnPath(Option<Seq<u8>>),
    ResentDate(mailimf_date_time),
    ResentFrom(Seq<MailboxView>),
    ResentSender(MailboxView),
    ResentTo(Seq<AddressView>),
    ResentCc(Seq<AddressView>),
    ResentBcc(Option<Seq<AddressView>>),
    ResentMsgId(Seq<u8>),
    OrigDate(mailimf_date_time),
    From(Seq<MailboxView>),
    Sender(MailboxView),
    ReplyTo(Seq<AddressView>),
    To(Seq<AddressView>),
    Cc(Seq<AddressView>),
    Bcc(Option<Seq<AddressView>>),
    MessageId(Seq<u8>),
    InReplyTo(Seq<Seq<u8>>),
    References(Seq<Seq<u8>>),
    Subject(Seq<u8>),
    Comments(Seq<u8>),
    Keywords(Seq<Seq<u8>>),
    OptionalField(OptionalFieldView),
}

impl View for mailimf_field {
    type V = FieldView;

    open spec fn view(&self) -> FieldView {
        match self {
            mailimf_field::ReturnPath(v) => FieldView::ReturnPath(v@),
            mailimf_field::ResentDate(v) => FieldView::ResentDate(v@),
            mailimf_field::ResentFrom(v) => FieldView::ResentFrom(v@),
            mailimf_field::ResentSender(v) => FieldView::ResentSender(v@),
            mailimf_field::ResentTo(v) => FieldView::ResentTo(v@),
            mailimf_field::ResentCc(v) => FieldView::ResentCc(v@),
            mailimf_field::ResentBcc(v) => FieldView::ResentBcc(v@),
            mailimf_field::ResentMsgId(v) => FieldView::ResentMsgId(v@),
            mailimf_field::OrigDate(v) => FieldView::OrigDate(v@),
            mailimf_field::From(v) => FieldView::From(v@),
            mailimf_field::Sender(v) => FieldView::Sender(v@),
            mailimf_field::ReplyTo(v) => FieldView::ReplyTo(v@),
            mailimf_field::To(v) => FieldView::To(v@),
            mailimf_field::Cc(v) => FieldView::Cc(v@),
            mailimf_field::Bcc(v) => FieldView::Bcc(v@),
            mailimf_field::MessageId(v) => FieldView::MessageId(v@),
            mailimf_field::InReplyTo(v) => FieldView::InReplyTo(v@),
            mailimf_field::References(v) => FieldView::References(v@),
            mailimf_field::Subject(v) => FieldView::Subject(v@),
            mailimf_field::Comments(v) => FieldView::Comments(v@),
            mailimf_field::Keywords(v) => FieldView::Keywords(v@),
            mailimf_field::OptionalField(v) => FieldView::OptionalField(v@),
        }
    }
}

/// The type number of a field (one of the `MAILIMF_FIELD_*` constants).
pub open spec fn spec_field_type(f: FieldView) -> i32 {
    match f {
        FieldView::ReturnPath(_) => 1,
        FieldView::ResentDate(_) => 2,
        FieldView::ResentFrom(_) => 3,
        FieldView::ResentSender(_) => 4,
        FieldView::ResentTo(_) => 5,
        FieldView::ResentCc(_) => 6,
        FieldView::ResentBcc(_) => 7,
        FieldView::ResentMsgId(_) => 8,
        FieldView::OrigDate(_) => 9,
        FieldView::From(_) => 10,
        FieldView::Sender(_) => 11,
        FieldView::ReplyTo(_) => 12,
        FieldView::To(_) => 13,
        FieldView::Cc(_) => 14,
        FieldView::Bcc(_) => 15,
        FieldView::MessageId(_) => 16,
        FieldView::InReplyTo(_) => 17,
        FieldView::References(_) => 18,
        FieldView::Subject(_) => 19,
        FieldView::Comments(_) => 20,
        FieldView::Keywords(_) => 21,
        FieldView::OptionalField(_) => 22,
    }
}

impl mailimf_field {
    /// The type number of the field (one of the `MAILIMF_FIELD_*` constants).
    pub fn fld_type(&self) -> (t: i32)
        ensures
            t == spec_field_type(self@),
    {
        match self {
            mailimf_field::ReturnPath(_) => 1,
            mailimf_field::ResentDate(_) => 2,
            mailimf_field::ResentFrom(_) => 3,
            mailimf_field::ResentSender(_) => 4,
            mailimf_field::ResentTo(_) => 5,
            mailimf_field::ResentCc(_) => 6,
            mailimf_field::ResentBcc(_) => 7,
            mailimf_field::ResentMsgId(_) => 8,
            mailimf_field::OrigDate(_) => 9,
            mailimf_field::From(_) => 10,
            mailimf_field::Sender(_) => 11,
            mailimf_field::ReplyTo(_) => 12,
            mailimf_field::To(_) => 13,
            mailimf_field::Cc(_) => 14,
            mailimf_field::Bcc(_) => 15,
            mailimf_field::MessageId(_) => 16,
            mailimf_field::InReplyTo(_) => 17,
            mailimf_field::References(_) => 18,
            mailimf_field::Subject(_) => 19,
            mailimf_field::Comments(_) => 20,
            mailimf_field::Keywords(_) => 21,
            mailimf_field::OptionalField(_) => 22,
        }
    }
}

pub open spec fn ent_token() -> Seq<u8> {
    seq![101u8, 110u8, 116u8, 45u8]
}

/// The type of field that the first letters of a field name point to; it is
/// only a guess, which the field's parser then checks.
pub open spec fn spec_guess_header_type(s: Seq<u8>, i: int) -> i32 {
    match up_at(s, i) {
        Some(66) => 15,
        Some(68) => 9,
        Some(70) => 10,
        Some(73) => 17,
        Some(75) => 21,
        Some(77) => 16,
        Some(84) => 13,
        Some(67) => match up_at(s, i + 1) {
            Some(79) => 20,
            Some(67) => 14,
            _ => 0i32,
        },
        Some(83) => match up_at(s, i + 1) {
            Some(69) => 11,
            Some(85) => 19,
            _ => 0i32,
        },
        Some(82) => match up_at(s, i + 1) {
            Some(69) => match up_at(s, i + 2) {
                Some(70) => 18,
                Some(80) => 12,
                Some(84) => 1,
                Some(83) => match spec_token_ci(s, i + 3, ent_token()) {
                    Ok(_) => match up_at(s, i + 7) {
                        Some(68) => 2,
                        Some(70) => 3,
                        Some(83) => 4,
                        Some(84) => 5,
                        Some(67) => 6,
                        Some(66) => 7,
                        Some(77) => 8,
                        _ => 0i32,
                    },
                    Err(_) => 0i32,
                },
                _ => 0i32,
            },
            _ => 0i32,
        },
        _ => 0i32,
    }
}

fn up_at_exec(message: &[u8], i: usize) -> (r: Option<u8>)
    ensures
        r == up_at(message@, i as int),
{
    if i < message.len() {
        Some(to_upper(message[i]))
    } else {
        None
    }
}

pub fn guess_header_type(message: &[u8], indx: usize) -> (r: i32)
    requires
        indx <= message@.len(),
    ensures
        r == spec_guess_header_type(message@, indx as int),
{
    if indx >= message.len() {
        return 0;
    }
    let c = to_upper(message[indx]);
    if c == 66 { return 15; }
    if c == 68 { return 9; }
    if c == 70 { return 10; }
    if c == 73 { return 17; }
    if c == 75 { return 21; }
    if c == 77 { return 16; }
    if c == 84 { return 13; }
    if c == 67 {
        return match up_at_exec(message, indx + 1) {
            Some(79) => 20,
            Some(67) => 14,
            _ => 0,
        };
    }
    if c == 83 {
        return match up_at_exec(message, indx + 1) {
            Some(69) => 11,
            Some(85) => 19,
            _ => 0,
        };
    }
    if c != 82 {
        return 0;
    }
    match up_at_exec(message, indx + 1) {
        Some(69) => {},
        _ => return 0,
    }
    let d = match up_at_exec(message, indx + 2) {
        Some(d) => d,
        None => return 0,
    };
    if d == 70 { return 18; }
    if d == 80 { return 12; }
    if d == 84 { return 1; }
    if d != 83 { return 0; }
    let ent: [u8; 4] = [101, 110, 116, 45];
    assert(ent@ == ent_token());
    if indx + 3 > message.len() {
        return 0;
    }
    match mailimf_token_case_insensitive_len_parse(message, indx + 3, &ent) {
        Ok(_) => {},
        Err(_) => return 0,
    }
    match up_at_exec(message, indx + 7) {
        Some(68) => 2,
        Some(70) => 3,
        Some(83) => 4,
        Some(84) => 5,
        Some(67) => 6,
        Some(66) => 7,
        Some(77) => 8,
        _ => 0,
    }
}

/// A field read by one of the field parsers, seen as a header field.
pub open spec fn lift<V>(r: Result<(V, int), MailError>, f: spec_fn(V) -> FieldView) -> Result<(FieldView, int), MailError> {
    match r {
        Ok((v, e)) => Ok((f(v), e)),
        Err(x) => Err(x),
    }
}

/// Each field parser's outcome, seen as a header field (kept opaque so that
/// a proof about one field type does not unfold the others).
#[verifier::opaque]
pub open spec fn spec_return_field(s: Seq<u8>, i: int) -> Result<(FieldView, int), MailError> {
    lift(spec_return(s, i), |v| FieldView::ReturnPath(v))
}

#[verifier::opaque]
pub open spec fn spec_resent_date_field(s: Seq<u8>, i: int) -> Result<(FieldView, int), MailError> {
    lift(spec_orig_date_k(s, i, HeaderName::ResentDate), |v| FieldView::ResentDate(v))
}

#[verifier::opaque]
pub open spec fn spec_resent_from_field(s: Seq<u8>, i: int) -> Result<(FieldView, int), MailError> {
    lift(spec_from_k(s, i, HeaderName::ResentFrom), |v| FieldView::ResentFrom(v))
}

#[verifier::opaque]
pub open spec fn spec_resent_sender_field(s: Seq<u8>, i: int) -> Result<(FieldView, int), MailError> {
    lift(spec_sender_k(s, i, HeaderName::ResentSender), |v| FieldView::ResentSender(v))
}

#[verifier::opaque]
pub open spec fn spec_resent_to_field(s: Seq<u8>, i: int) -> Result<(FieldView, int), MailError> {
    lift(spec_addr_field_k(s, i, HeaderName::ResentTo), |v| FieldView::ResentTo(v))
}

#[verifier::opaque]
pub open spec fn spec_resent_cc_field(s: Seq<u8>, i: int) -> Result<(FieldView, int), MailError> {
    lift(spec_addr_field_k(s, i, HeaderName::ResentCc), |v| FieldView::ResentCc(v))
}

#[verifier::opaque]
pub open spec fn spec_resent_bcc_field(s: Seq<u8>, i: int) -> Result<(FieldView, int), MailError> {
    lift(spec_bcc_k(s, i, HeaderName::ResentBcc), |v| FieldView::ResentBcc(v))
}

#[verifier::opaque]
pub open spec fn spec_resent_msg_id_field(s: Seq<u8>, i: int) -> Result<(FieldView, int), MailError> {
    lift(spec_message_id_k(s, i, HeaderName::ResentMsgId), |v| FieldView::ResentMsgId(v))
}

#[verifier::opaque]
pub open spec fn spec_orig_date_field(s: Seq<u8>, i: int) -> Result<(FieldView, int), MailError> {
    lift(spec_orig_date_k(s, i, HeaderName::OrigDate), |v| FieldView::OrigDate(v))
}

#[verifier::opaque]
pub open spec fn spec_from_field(s: Seq<u8>, i: int) -> Result<(FieldView, int), MailError> {
    lift(spec_from_k(s, i, HeaderName::From), |v| FieldView::From(v))
}

#[verifier::opaque]
pub open spec fn spec_sender_field(s: Seq<u8>, i: int) -> Result<(FieldView, int), MailError> {
    lift(spec_sender_k(s, i, HeaderName::Sender), |v| FieldView::Sender(v))
}

#[verifier::opaque]
pub open spec fn spec_reply_to_field(s: Seq<u8>, i: int) -> Result<(FieldView, int), MailError> {
    lift(spec_addr_field_k(s, i, HeaderName::ReplyTo), |v| FieldView::ReplyTo(v))
}

#[verifier::opaque]
pub open spec fn spec_to_field(s: Seq<u8>, i: int) -> Result<(FieldView, int), MailError> {
    lift(spec_addr_field_k(s, i, HeaderName::To), |v| FieldView::To(v))
}

#[verifier::opaque]
pub open spec fn spec_cc_field(s: Seq<u8>, i: int) -> Result<(FieldView, int), MailError> {
    lift(spec_addr_field_k(s, i, HeaderName::Cc), |v| FieldView::Cc(v))
}

#[verifier::opaque]
pub open spec fn spec_bcc_field(s: Seq<u8>, i: int) -> Result<(FieldView, int), MailError> {
    lift(spec_bcc_k(s, i, HeaderName::Bcc), |v| FieldView::Bcc(v))
}

#[verifier::opaque]
pub open spec fn spec_message_id_field(s: Seq<u8>, i: int) -> Result<(FieldView, int), MailError> {
    lift(spec_message_id_k(s, i, HeaderName::MessageId), |v| FieldView::MessageId(v))
}

#[verifier::opaque]
pub open spec fn spec_in_reply_to_field(s: Seq<u8>, i: int) -> Result<(FieldView, int), MailError> {
    lift(spec_msg_ids_k(s, i, HeaderName::InReplyTo), |v| FieldView::InReplyTo(v))
}

#[verifier::opaque]
pub open spec fn spec_references_field(s: Seq<u8>, i: int) -> Result<(FieldView, int), MailError> {
    lift(spec_msg_ids_k(s, i, HeaderName::References), |v| FieldView::References(v))
}

#[verifier::opaque]
pub open spec fn spec_subject_field(s: Seq<u8>, i: int) -> Result<(FieldView, int), MailError> {
    lift(spec_text_field_k(s, i, HeaderName::Subject), |v| FieldView::Subject(v))
}

#[verifier::opaque]
pub open spec fn spec_comments_field(s: Seq<u8>, i: int) -> Result<(FieldView, int), MailError> {
    lift(spec_text_field_k(s, i, HeaderName::Comments), |v| FieldView::Comments(v))
}

#[verifier::opaque]
pub open spec fn spec_keywords_field(s: Seq<u8>, i: int) -> Result<(FieldView, int), MailError> {
    lift(spec_keywords(s, i), |v| FieldView::Keywords(v))
}

/// What the parser of the field type `g` reads at `i`.
pub open spec fn spec_known_field(s: Seq<u8>, i: int, g: i32) -> Result<(FieldView, int), MailError> {
    if g == 1 {
        spec_return_field(s, i)
    } else if g == 2 {
        spec_resent_date_field(s, i)
    } else if g == 3 {
        spec_resent_from_field(s, i)
    } else if g == 4 {
        spec_resent_sender_field(s, i)
    } else if g == 5 {
        spec_resent_to_field(s, i)
    } else if g == 6 {
        spec_resent_cc_field(s, i)
    } else if g == 7 {
        spec_resent_bcc_field(s, i)
    } else if g == 8 {
        spec_resent_msg_id_field(s, i)
    } else if g == 9 {
        spec_orig_date_field(s, i)
    } else if g == 10 {
        spec_from_field(s, i)
    } else if g == 11 {
        spec_sender_field(s, i)
    } else if g == 12 {
        spec_reply_to_field(s, i)
    } else if g == 13 {
        spec_to_field(s, i)
    } else if g == 14 {
        spec_cc_field(s, i)
    } else if g == 15 {
        spec_bcc_field(s, i)
    } else if g == 16 {
        spec_message_id_field(s, i)
    } else if g == 17 {
        spec_in_reply_to_field(s, i)
    } else if g == 18 {
        spec_references_field(s, i)
    } else if g == 19 {
        spec_subject_field(s, i)
    } else if g == 20 {
        spec_comments_field(s, i)
    } else if g == 21 {
        spec_keywords_field(s, i)
    } else {
        Err(MailError::Parse)
    }
}

#[verifier::spinoff_prover]
#[verifier::rlimit(30)]
fn return_as_field(message: &[u8], indx: usize) -> (r: Result<(mailimf_field, usize), MailError>)
    requires
        indx <= message@.len(),
    ensures
        res_view(r) == spec_known_field(message@, indx as int, 1),
        r matches Ok((_, j)) ==> indx < j <= message@.len(),
{
    reveal(spec_return_field);
    let (v, e) = mailimf_return_parse(message, indx)?;
    Ok((mailimf_field::ReturnPath(v), e))
}

#[verifier::spinoff_prover]
#[verifier::rlimit(30)]
fn resent_date_as_field(message: &[u8], indx: usize) -> (r: Result<(mailimf_field, usize), MailError>)
    requires
        indx <= message@.len(),
    ensures
        res_view(r) == spec_known_field(message@, indx as int, 2),
        r matches Ok((_, j)) ==> indx < j <= message@.len(),
{
    reveal(spec_resent_date_field);
    let (v, e) = mailimf_resent_date_parse(message, indx)?;
    Ok((mailimf_field::ResentDate(v), e))
}

#[verifier::spinoff_prover]
#[verifier::rlimit(30)]
fn resent_from_as_field(message: &[u8], indx: usize) -> (r: Result<(mailimf_field, usize), MailError>)
    requires
        indx <= message@.len(),
    ensures
        res_view(r) == spec_known_field(message@, indx as int, 3),
        r matches Ok((_, j)) ==> indx < j <= message@.len(),
{
    reveal(spec_resent_from_field);
    let (v, e) = mailimf_resent_from_parse(message, indx)?;
    Ok((mailimf_field::ResentFrom(v), e))
}

#[verifier::spinoff_prover]
#[verifier::rlimit(30)]
fn resent_sender_as_field(message: &[u8], indx: usize) -> (r: Result<(mailimf_field, usize), MailError>)
    requires
        indx <= message@.len(),
    ensures
        res_view(r) == spec_known_field(message@, indx as int, 4),
        r matches Ok((_, j)) ==> indx < j <= message@.len(),
{
    reveal(spec_resent_sender_field);
    let (v, e) = mailimf_resent_sender_parse(message, indx)?;
    Ok((mailimf_field::ResentSender(v), e))
}

#[verifier::spinoff_prover]
#[verifier::rlimit(30)]
fn resent_to_as_field(message: &[u8], indx: usize) -> (r: Result<(mailimf_field, usize), MailError>)
    requires
        indx <= message@.len(),
    ensures
        res_view(r) == spec_known_field(message@, indx as int, 5),
        r matches Ok((_, j)) ==> indx < j <= message@.len(),
{
    reveal(spec_resent_to_field);
    let (v, e) = mailimf_resent_to_parse(message, indx)?;
    Ok((mailimf_field::ResentTo(v), e))
}

#[verifier::spinoff_prover]
#[verifier::rlimit(30)]
fn resent_cc_as_field(message: &[u8], indx: usize) -> (r: Result<(mailimf_field, usize), MailError>)
    requires
        indx <= message@.len(),
    ensures
        res_view(r) == spec_known_field(message@, indx as int, 6),
        r matches Ok((_, j)) ==> indx < j <= message@.len(),
{
    reveal(spec_resent_cc_field);
    let (v, e) = mailimf_resent_cc_parse(message, indx)?;
    Ok((mailimf_field::ResentCc(v), e))
}

#[verifier::spinoff_prover]
#[verifier::rlimit(30)]
fn resent_bcc_as_field(message: &[u8], indx: usize) -> (r: Result<(mailimf_field, usize), MailError>)
    requires
        indx <= message@.len(),
    ensures
        res_view(r) == spec_known_field(message@, indx as int, 7),
        r matches Ok((_, j)) ==> indx < j <= message@.len(),
{
    reveal(spec_resent_bcc_field);
    let (v, e) = mailimf_resent_bcc_parse(message, indx)?;
    Ok((mailimf_field::ResentBcc(v), e))
}

#[verifier::spinoff_prover]
#[verifier::rlimit(30)]
fn resent_msg_id_as_field(message: &[u8], indx: usize) -> (r: Result<(mailimf_field, usize), MailError>)
    requires
        indx <= message@.len(),
    ensures
        res_view(r) == spec_known_field(message@, indx as int, 8),
        r matches Ok((_, j)) ==> indx < j <= message@.len(),
{
    reveal(spec_resent_msg_id_field);
    let (v, e) = mailimf_resent_msg_id_parse(message, indx)?;
    Ok((mailimf_field::ResentMsgId(v), e))
}

#[verifier::spinoff_prover]
#[verifier::rlimit(30)]
fn orig_date_as_field(message: &[u8], indx: usize) -> (r: Result<(mailimf_field, usize), MailError>)
    requires
        indx <= message@.len(),
    ensures
        res_view(r) == spec_known_field(message@, indx as int, 9),
        r matches Ok((_, j)) ==> indx < j <= message@.len(),
{
    reveal(spec_orig_date_field);
    let (v, e) = mailimf_orig_date_parse(message, indx)?;
    Ok((mailimf_field::OrigDate(v), e))
}

#[verifier::spinoff_prover]
#[verifier::rlimit(30)]
fn from_as_field(message: &[u8], indx: usize) -> (r: Result<(mailimf_field, usize), MailError>)
    requires
        indx <= message@.len(),
    ensures
        res_view(r) == spec_known_field(message@, indx as int, 10),
        r matches Ok((_, j)) ==> indx < j <= message@.len(),
{
    reveal(spec_from_field);
    let (v, e) = mailimf_from_parse(message, indx)?;
    Ok((mailimf_field::From(v), e))
}

#[verifier::spinoff_prover]
#[verifier::rlimit(30)]
fn sender_as_field(message: &[u8], indx: usize) -> (r: Result<(mailimf_field, usize), MailError>)
    requires
        indx <= message@.len(),
    ensures
        res_view(r) == spec_known_field(message@, indx as int, 11),
        r matches Ok((_, j)) ==> indx < j <= message@.len(),
{
    reveal(spec_sender_field);
    let (v, e) = mailimf_sender_parse(message, indx)?;
    Ok((mailimf_field::Sender(v), e))
}

#[verifier::spinoff_prover]
#[verifier::rlimit(30)]
fn reply_to_as_field(message: &[u8], indx: usize) -> (r: Result<(mailimf_field, usize), MailError>)
    requires
        indx <= message@.len(),
    ensures
        res_view(r) == spec_known_field(message@, indx as int, 12),
        r matches Ok((_, j)) ==> indx < j <= message@.len(),
{
    reveal(spec_reply_to_field);
    let (v, e) = mailimf_reply_to_parse(message, indx)?;
    Ok((mailimf_field::ReplyTo(v), e))
}

#[verifier::spinoff_prover]
#[verifier::rlimit(30)]
fn to_as_field(message: &[u8], indx: usize) -> (r: Result<(mailimf_field, usize), MailError>)
    requires
        indx <= message@.len(),
    ensures
        res_view(r) == spec_known_field(message@, indx as int, 13),
        r matches Ok((_, j)) ==> indx < j <= message@.len(),
{
    reveal(spec_to_field);
    let (v, e) = mailimf_to_parse(message, indx)?;
    Ok((mailimf_field::To(v), e))
}

#[verifier::spinoff_prover]
#[verifier::rlimit(30)]
fn cc_as_field(message: &[u8], indx: usize) -> (r: Result<(mailimf_field, usize), MailError>)
    requires
        indx <= message@.len(),
    ensures
        res_view(r) == spec_known_field(message@, indx as int, 14),
        r matches Ok((_, j)) ==> indx < j <= message@.len(),
{
    reveal(spec_cc_field);
    let (v, e) = mailimf_cc_parse(message, indx)?;
    Ok((mailimf_field::Cc(v), e))
}

#[verifier::spinoff_prover]
#[verifier::rlimit(30)]
fn bcc_as_field(message: &[u8], indx: usize) -> (r: Result<(mailimf_field, usize), MailError>)
    requires
        indx <= message@.len(),
    ensures
        res_view(r) == spec_known_field(message@, indx as int, 15),
        r matches Ok((_, j)) ==> indx < j <= message@.len(),
{
    reveal(spec_bcc_field);
    let (v, e) = mailimf_bcc_parse(message, indx)?;
    Ok((mailimf_field::Bcc(v), e))
}

#[verifier::spinoff_prover]
#[verifier::rlimit(30)]
fn message_id_as_field(message: &[u8], indx: usize) -> (r: Result<(mailimf_field, usize), MailError>)
    requires
        indx <= message@.len(),
    ensures
        res_view(r) == spec_known_field(message@, indx as int, 16),
        r matches Ok((_, j)) ==> indx < j <= message@.len(),
{
    reveal(spec_message_id_field);
    let (v, e) = mailimf_message_id_parse(message, indx)?;
    Ok((mailimf_field::MessageId(v), e))
}

#[verifier::spinoff_prover]
#[verifier::rlimit(30)]
fn in_reply_to_as_field(message: &[u8], indx: usize) -> (r: Result<(mailimf_field, usize), MailError>)
    requires
        indx <= message@.len(),
    ensures
        res_view(r) == spec_known_field(message@, indx as int, 17),
        r matches Ok((_, j)) ==> indx < j <= message@.len(),
{
    reveal(spec_in_reply_to_field);
    let (v, e) = mailimf_in_reply_to_parse(message, indx)?;
    Ok((mailimf_field::InReplyTo(v), e))
}

#[verifier::spinoff_prover]
#[verifier::rlimit(30)]
fn references_as_field(message: &[u8], indx: usize) -> (r: Result<(mailimf_field, usize), MailError>)
    requires
        indx <= message@.len(),
    ensures
        res_view(r) == spec_known_field(message@, indx as int, 18),
        r matches Ok((_, j)) ==> indx < j <= message@.len(),
{
    reveal(spec_references_field);
    let (v, e) = mailimf_references_parse(message, indx)?;
    Ok((mailimf_field::References(v), e))
}

#[verifier::spinoff_prover]
#[verifier::rlimit(30)]
fn subject_as_field(message: &[u8], indx: usize) -> (r: Result<(mailimf_field, usize), MailError>)
    requires
        indx <= message@.len(),
    ensures
        res_view(r) == spec_known_field(message@, indx as int, 19),
        r matches Ok((_, j)) ==> indx < j <= message@.len(),
{
    reveal(spec_subject_field);
    let (v, e) = mailimf_subject_parse(message, indx)?;
    Ok((mailimf_field::Subject(v), e))
}

#[verifier::spinoff_prover]
#[verifier::rlimit(30)]
fn comments_as_field(message: &[u8], indx: usize) -> (r: Result<(mailimf_field, usize), MailError>)
    requires
        indx <= message@.len(),
    ensures
        res_view(r) == spec_known_field(message@, indx as int, 20),
        r matches Ok((_, j)) ==> indx < j <= message@.len(),
{
    reveal(spec_comments_field);
    let (v, e) = mailimf_comments_parse(message, indx)?;
    Ok((mailimf_field::Comments(v), e))
}

#[verifier::spinoff_prover]
#[verifier::rlimit(30)]
fn keywords_as_field(message: &[u8], indx: usize) -> (r: Result<(mailimf_field, usize), MailError>)
    requires
        indx <= message@.len(),
    ensures
        res_view(r) == spec_known_field(message@, indx as int, 21),
        r matches Ok((_, j)) ==> indx < j <= message@.len(),
{
    reveal(spec_keywords_field);
    let (v, e) = mailimf_keywords_parse(message, indx)?;
    Ok((mailimf_field::Keywords(v), e))
}

/// Runs the parser of the field type `g` at `indx`.
fn known_field(message: &[u8], indx: usize, g: i32) -> (r: Result<(mailimf_field, usize), MailError>)
    requires
        indx <= message@.len(),
    ensures
        res_view(r) == spec_known_field(message@, indx as int, g),
        r matches Ok((_, j)) ==> indx < j <= message@.len(),
{
    match g {
        1 => return_as_field(message, indx),
        2 => resent_date_as_field(message, indx),
        3 => resent_from_as_field(message, indx),
        4 => resent_sender_as_field(message, indx),
        5 => resent_to_as_field(message, indx),
        6 => resent_cc_as_field(message, indx),
        7 => resent_bcc_as_field(message, indx),
        8 => resent_msg_id_as_field(message, indx),
        9 => orig_date_as_field(message, indx),
        10 => from_as_field(message, indx),
        11 => sender_as_field(message, indx),
        12 => reply_to_as_field(message, indx),
        13 => to_as_field(message, indx),
        14 => cc_as_field(message, indx),
        15 => bcc_as_field(message, indx),
        16 => message_id_as_field(message, indx),
        17 => in_reply_to_as_field(message, indx),
        18 => references_as_field(message, indx),
        19 => subject_as_field(message, indx),
        20 => comments_as_field(message, indx),
        21 => keywords_as_field(message, indx),
        _ => Err(MailError::Parse),
    }
}

/// An optional field, seen as a header field.
pub open spec fn spec_optional_as_field(s: Seq<u8>, i: int) -> Result<(FieldView, int), MailError> {
    lift(spec_optional_field(s, i), |v| FieldView::OptionalField(v))
}

#[verifier::spinoff_prover]
#[verifier::rlimit(30)]
fn optional_as_field(message: &[u8], indx: usize) -> (r: Result<(mailimf_field, usize), MailError>)
    requires
        indx <= message@.len(),
    ensures
        res_view(r) == spec_optional_as_field(message@, indx as int),
        r matches Ok((_, j)) ==> indx < j <= message@.len(),
{
    let (v, e) = mailimf_optional_field_parse(message, indx)?;
    Ok((mailimf_field::OptionalField(v), e))
}

/// field: the field whose type the name points to, or else an optional field.
pub open spec fn spec_field(s: Seq<u8>, i: int) -> Result<(FieldView, int), MailError> {
    let g = spec_guess_header_type(s, i);
    match spec_known_field(s, i, g) {
        Ok(v) => Ok(v),
        Err(MailError::Parse) => spec_optional_as_field(s, i),
        Err(x) => Err(x),
    }
}

pub fn mailimf_field_parse(message: &[u8], indx: usize) -> (r: Result<(mailimf_field, usize), MailError>)
    requires
        indx <= message@.len(),
    ensures
        res_view(r) == spec_field(message@, indx as int),
        r matches Ok((_, j)) ==> indx < j <= message@.len(),
{
    let g = guess_header_type(message, indx);
    match known_field(message, indx, g) {
        Ok(v) => Ok(v),
        Err(MailError::Parse) => optional_as_field(message, indx),
        Err(x) => Err(x),
    }
}

/// The fields that the envelope parser reads for what they hold (Date to Subject).
pub open spec fn spec_envelope_field(s: Seq<u8>, i: int) -> Result<(FieldView, int), MailError> {
    let g = spec_guess_header_type(s, i);
    if 9 <= g <= 19 {
        spec_known_field(s, i, g)
    } else {
        Err(MailError::Parse)
    }
}

pub fn mailimf_envelope_field_parse(message: &[u8], indx: usize) -> (r: Result<(mailimf_field, usize), MailError>)
    requires
        indx <= message@.len(),
    ensures
        res_view(r) == spec_envelope_field(message@, indx as int),
        r matches Ok((_, j)) ==> indx < j <= message@.len(),
{
    let g = guess_header_type(message, indx);
    if 9 <= g && g <= 19 {
        known_field(message, indx, g)
    } else {
        Err(MailError::Parse)
    }
}

/// An envelope field, or else (whatever went wrong) an optional field.
pub open spec fn spec_envelope_or_optional_field(s: Seq<u8>, i: int) -> Result<(FieldView, int), MailError> {
    match spec_envelope_field(s, i) {
        Ok(v) => Ok(v),
        Err(_) => spec_optional_as_field(s, i),
    }
}

pub fn mailimf_envelope_or_optional_field_parse(message: &[u8], indx: usize) -> (r: Result<(mailimf_field, usize), MailError>)
    requires
        indx <= message@.len(),
    ensures
        res_view(r) == spec_envelope_or_optional_field(message@, indx as int),
        r matches Ok((_, j)) ==> indx < j <= message@.len(),
{
    match mailimf_envelope_field_parse(message, indx) {
        Ok(v) => Ok(v),
        Err(_) => optional_as_field(message, indx),
    }
}

pub fn mailimf_only_optional_field_parse(message: &[u8], indx: usize) -> (r: Result<(mailimf_field, usize), MailError>)
    requires
        indx <= message@.len(),
    ensures
        res_view(r) == spec_optional_as_field(message@, indx as int),
        r matches Ok((_, j)) ==> indx < j <= message@.len(),
{
    optional_as_field(message, indx)
}

/// How each field of a header list is read.
#[derive(PartialEq, Eq, Structural, Clone, Copy, Debug)]
pub enum FieldMode {
    /// Every known field, others as optional fields.
    All,
    /// The envelope fields, others as optional fields.
    EnvelopeOrOptional,
    /// Every field as an optional field.
    OnlyOptional,
}

pub open spec fn spec_field_m(s: Seq<u8>, i: int, m: FieldMode) -> Result<(FieldView, int), MailError> {
    match m {
        FieldMode::All => spec_field(s, i),
        FieldMode::EnvelopeOrOptional => spec_envelope_or_optional_field(s, i),
        FieldMode::OnlyOptional => spec_optional_as_field(s, i),
    }
}

fn field_m(message: &[u8], indx: usize, m: FieldMode) -> (r: Result<(mailimf_field, usize), MailError>)
    requires
        indx <= message@.len(),
    ensures
        res_view(r) == spec_field_m(message@, indx as int, m),
        r matches Ok((_, j)) ==> indx < j <= message@.len(),
{
    match m {
        FieldMode::All => mailimf_field_parse(message, indx),
        FieldMode::EnvelopeOrOptional => mailimf_envelope_or_optional_field_parse(message, indx),
        FieldMode::OnlyOptional => mailimf_only_optional_field_parse(message, indx),
    }
}

/// The header: a list of fields.
#[allow(non_camel_case_types)]
pub struct mailimf_fields {
    pub fld_list: Vec<mailimf_field>,
}

pub open spec fn fields_view(v: Seq<mailimf_field>) -> Seq<FieldView> {
    v.map_values(|f: mailimf_field| f@)
}

impl View for mailimf_fields {
    type V = Seq<FieldView>;

    open spec fn view(&self) -> Seq<FieldView> {
        fields_view(self.fld_list@)
    }
}

pub fn mailimf_fields_new(fld_list: Vec<mailimf_field>) -> (f: mailimf_fields)
    ensures
        f.fld_list == fld_list,
{
    mailimf_fields { fld_list }
}

/// A header with no field.
pub fn mailimf_fields_new_empty() -> (f: mailimf_fields)
    ensures
        f@ == Seq::<FieldView>::empty(),
{
    let f = mailimf_fields { fld_list: Vec::new() };
    assert(f@ =~= Seq::<FieldView>::empty());
    f
}

/// Adds a field at the end of a header.
pub fn mailimf_fields_add(fields: &mut mailimf_fields, field: mailimf_field) -> (r: Result<(), MailError>)
    ensures
        r is Ok,
        final(fields).fld_list@ == old(fields).fld_list@.push(field),
{
    fields.fld_list.push(field);
    Ok(())
}

/// A new optional field with the given name and value.
pub fn mailimf_field_new_custom(name: Vec<u8>, value: Vec<u8>) -> (f: mailimf_field)
    ensures
        f@ == FieldView::OptionalField(OptionalFieldView { name: name@, value: value@ }),
{
    mailimf_field::OptionalField(crate::fields::mailimf_optional_field_new(name, value))
}

/// Fields read one after another from `p`, added to `acc`, until one does not read.
pub open spec fn spec_fields_rest(s: Seq<u8>, p: int, acc: Seq<FieldView>, m: FieldMode) -> Result<(Seq<FieldView>, int), MailError>
    decreases s.len() - p,
{
    match spec_field_m(s, p, m) {
        Ok((f, e)) => if 0 <= p < e <= s.len() {
            spec_fields_rest(s, e, acc.push(f), m)
        } else {
            Err(MailError::Parse)
        },
        Err(MailError::Parse) => Ok((acc, p)),
        Err(x) => Err(x),
    }
}

pub open spec fn spec_fields_m(s: Seq<u8>, i: int, m: FieldMode) -> Result<(Seq<FieldView>, int), MailError> {
    spec_fields_rest(s, i, Seq::empty(), m)
}

fn fields_m(message: &[u8], indx: usize, m: FieldMode) -> (r: Result<(mailimf_fields, usize), MailError>)
    requires
        indx <= message@.len(),
    ensures
        res_view(r) == spec_fields_m(message@, indx as int, m),
        r matches Ok((_, j)) ==> indx <= j <= message@.len(),
{
    let ghost whole = spec_fields_m(message@, indx as int, m);
    let mut list: Vec<mailimf_field> = Vec::new();
    assert(fields_view(list@) =~= Seq::<FieldView>::empty());
    let mut cur: usize = indx;
    loop
        invariant
            indx <= cur <= message@.len(),
            whole == spec_fields_m(message@, indx as int, m),
            whole == spec_fields_rest(message@, cur as int, fields_view(list@), m),
        decreases message@.len() - cur,
    {
        match field_m(message, cur, m) {
            Ok((f, e)) => {
                let ghost l0 = list@;
                let ghost fv = f@;
                list.push(f);
                assert(fields_view(list@) =~= fields_view(l0).push(fv));
                cur = e;
            },
            Err(MailError::Parse) => {
                return Ok((mailimf_fields_new(list), cur));
            },
            Err(x) => {
                return Err(x);
            },
        }
    }
}

/// Reads header fields, as many as there are.
pub fn mailimf_fields_parse(message: &[u8], indx: usize) -> (r: Result<(mailimf_fields, usize), MailError>)
    requires
        indx <= message@.len(),
    ensures
        res_view(r) == spec_fields_m(message@, indx as int, FieldMode::All),
        r matches Ok((_, j)) ==> indx <= j <= message@.len(),
{
    fields_m(message, indx, FieldMode::All)
}

/// Reads header fields, the envelope fields for what they hold and the others
/// as optional fields.
pub fn mailimf_envelope_and_optional_fields_parse(message: &[u8], indx: usize) -> (r: Result<(mailimf_fields, usize), MailError>)
    requires
        indx <= message@.len(),
    ensures
        res_view(r) == spec_fields_m(message@, indx as int, FieldMode::EnvelopeOrOptional),
        r matches Ok((_, j)) ==> indx <= j <= message@.len(),
{
    fields_m(message, indx, FieldMode::EnvelopeOrOptional)
}

/// Reads header fields, all as optional fields.
pub fn mailimf_optional_fields_parse(message: &[u8], indx: usize) -> (r: Result<(mailimf_fields, usize), MailError>)
    requires
        indx <= message@.len(),
    ensures
        res_view(r) == spec_fields_m(message@, indx as int, FieldMode::OnlyOptional),
        r matches Ok((_, j)) ==> indx <= j <= message@.len(),
{
    fields_m(message, indx, FieldMode::OnlyOptional)
}

/// The states of the scanner that skips a field.
#[derive(PartialEq, Eq, Structural, Clone, Copy, Debug)]
pub enum IgnoreState {
    Start,
    Cr,
    Lf,
    Wsp,
}

/// Skips a field from `p` in state `st`; `has` tells whether a colon was seen.
/// Gives the start of the next line once the field ends.
pub open spec fn spec_ignore_scan(s: Seq<u8>, p: int, st: IgnoreState, has: bool) -> Result<int, MailError>
    decreases s.len() - p,
{
    if p < 0 {
        Err(MailError::Parse)
    } else if p >= s.len() {
        if st == IgnoreState::Lf && has {
            Ok(p)
        } else {
            Err(MailError::Parse)
        }
    } else {
        let c = s[p];
        match st {
            IgnoreState::Lf => {
                if c == 9 || c == 32 {
                    spec_ignore_scan(s, p + 1, IgnoreState::Wsp, has)
                } else if has {
                    Ok(p)
                } else {
                    Err(MailError::Parse)
                }
            },
            IgnoreState::Cr => {
                if c == 10 {
                    spec_ignore_scan(s, p + 1, IgnoreState::Lf, has)
                } else {
                    spec_ignore_scan(s, p + 1, IgnoreState::Start, has || c == 58)
                }
            },
            _ => {
                if c == 13 {
                    spec_ignore_scan(s, p + 1, IgnoreState::Cr, has)
                } else if c == 10 {
                    spec_ignore_scan(s, p + 1, IgnoreState::Lf, has)
                } else {
                    spec_ignore_scan(s, p + 1, IgnoreState::Start, has || c == 58)
                }
            },
        }
    }
}

/// Skips one field that holds a colon; the field may not start with a line break.
pub open spec fn spec_ignore_field(s: Seq<u8>, i: int) -> Result<int, MailError> {
    if 0 <= i < s.len() && s[i] != 13 && s[i] != 10 {
        spec_ignore_scan(s, i, IgnoreState::Start, false)
    } else {
        Err(MailError::Parse)
    }
}

proof fn lemma_ignore_scan(s: Seq<u8>, p: int, st: IgnoreState, has: bool)
    requires
        0 <= p <= s.len(),
    ensures
        spec_ignore_scan(s, p, st, has) matches Ok(e) ==> p <= e <= s.len() && (st != IgnoreState::Lf ==> p < e),
    decreases s.len() - p,
{
    if p < s.len() {
        let c = s[p];
        lemma_ignore_scan(s, p + 1, IgnoreState::Wsp, has);
        lemma_ignore_scan(s, p + 1, IgnoreState::Lf, has);
        lemma_ignore_scan(s, p + 1, IgnoreState::Cr, has);
        lemma_ignore_scan(s, p + 1, IgnoreState::Start, has || c == 58);
    }
}

pub fn mailimf_ignore_field_parse(message: &[u8], indx: usize) -> (r: Result<usize, MailError>)
    requires
        indx <= message@.len(),
    ensures
        crate::pos_view(r) == spec_ignore_field(message@, indx as int),
        r matches Ok(j) ==> indx < j <= message@.len(),
{
    if indx >= message.len() || message[indx] == 13 || message[indx] == 10 {
        return Err(MailError::Parse);
    }
    proof {
        lemma_ignore_scan(message@, indx as int, IgnoreState::Start, false);
    }
    let ghost whole = spec_ignore_field(message@, indx as int);
    let mut cur: usize = indx;
    let mut st = IgnoreState::Start;
    let mut has = false;
    while cur < message.len()
        invariant
            indx <= cur <= message@.len(),
            whole == spec_ignore_field(message@, indx as int),
            whole == spec_ignore_scan(message@, cur as int, st, has),
            cur == indx ==> st == IgnoreState::Start,
        decreases message@.len() - cur,
    {
        let c = message[cur];
        match st {
            IgnoreState::Lf => {
                if c == 9 || c == 32 {
                    st = IgnoreState::Wsp;
                } else if has {
                    return Ok(cur);
                } else {
                    return Err(MailError::Parse);
                }
            },
            IgnoreState::Cr => {
                if c == 10 {
                    st = IgnoreState::Lf;
                } else {
                    st = IgnoreState::Start;
                    has = has || c == 58;
                }
            },
            _ => {
                if c == 13 {
                    st = IgnoreState::Cr;
                } else if c == 10 {
                    st = IgnoreState::Lf;
                } else {
                    st = IgnoreState::Start;
                    has = has || c == 58;
                }
            },
        }
        cur = cur + 1;
    }
    if st == IgnoreState::Lf && has {
        Ok(cur)
    } else {
        Err(MailError::Parse)
    }
}

/// Envelope fields from `p` on, the others skipped.
pub open spec fn spec_envelope_rest(s: Seq<u8>, p: int, acc: Seq<FieldView>) -> Result<(Seq<FieldView>, int), MailError>
    decreases s.len() - p,
{
    match spec_envelope_field(s, p) {
        Ok((f, e)) => if 0 <= p < e <= s.len() {
            spec_envelope_rest(s, e, acc.push(f))
        } else {
            Err(MailError::Parse)
        },
        Err(MailError::Parse) => match spec_ignore_field(s, p) {
            Ok(e) => if 0 <= p < e <= s.len() {
                spec_envelope_rest(s, e, acc)
            } else {
                Err(MailError::Parse)
            },
            Err(MailError::Parse) => Ok((acc, p)),
            Err(x) => Err(x),
        },
        Err(x) => Err(x),
    }
}

/// Reads the envelope fields of a header (Date, From, Sender, Reply-To, To,
/// Cc, Bcc, Message-ID, In-Reply-To, References and Subject) and skips the others.
pub fn mailimf_envelope_fields_parse(message: &[u8], indx: usize) -> (r: Result<(mailimf_fields, usize), MailError>)
    requires
        indx <= message@.len(),
    ensures
        res_view(r) == spec_envelope_rest(message@, indx as int, Seq::empty()),
        r matches Ok((_, j)) ==> indx <= j <= message@.len(),
{
    let ghost whole = spec_envelope_rest(message@, indx as int, Seq::empty());
    let mut list: Vec<mailimf_field> = Vec::new();
    assert(fields_view(list@) =~= Seq::<FieldView>::empty());
    let mut cur: usize = indx;
    loop
        invariant
            indx <= cur <= message@.len(),
            whole == spec_envelope_rest(message@, indx as int, Seq::empty()),
            whole == spec_envelope_rest(message@, cur as int, fields_view(list@)),
        decreases message@.len() - cur,
    {
        match mailimf_envelope_field_parse(message, cur) {
            Ok((f, e)) => {
                let ghost l0 = list@;
                let ghost fv = f@;
                list.push(f);
                assert(fields_view(list@) =~= fields_view(l0).push(fv));
                cur = e;
            },
            Err(MailError::Parse) => {
                match mailimf_ignore_field_parse(message, cur) {
                    Ok(e) => {
                        cur = e;
                    },
                    Err(MailError::Parse) => {
                        return Ok((mailimf_fields_new(list), cur));
                    },
                    Err(x) => {
                        return Err(x);
                    },
                }
            },
            Err(x) => {
                return Err(x);
            },
        }
    }
}

/// The body of a message: the bytes after the header.
#[allow(non_camel_case_types)]
pub struct mailimf_body {
    pub bd_text: Vec<u8>,
}

impl View for mailimf_body {
    type V = Seq<u8>;

    open spec fn view(&self) -> Seq<u8> {
        self.bd_text@
    }
}

pub fn mailimf_body_new(bd_text: Vec<u8>) -> (b: mailimf_body)
    ensures
        b@ == bd_text@,
{
    mailimf_body { bd_text }
}

/// Takes the rest of the input as the body.
pub fn mailimf_body_parse(message: &[u8], indx: usize) -> (r: Result<(mailimf_body, usize), MailError>)
    requires
        indx <= message@.len(),
    ensures
        r matches Ok((b, j)) && b@ == message@.subrange(indx as int, message@.len() as int)
            && j == message@.len(),
{
    Ok((mailimf_body_new(copy_range(message, indx, message.len())), message.len()))
}

/// A message: its header fields and its body.
#[allow(non_camel_case_types)]
pub struct mailimf_message {
    pub msg_fields: mailimf_fields,
    pub msg_body: mailimf_body,
}

pub struct MessageView {
    pub fields: Seq<FieldView>,
    pub body: Seq<u8>,
}

impl View for mailimf_message {
    type V = MessageView;

    open spec fn view(&self) -> MessageView {
        MessageView { fields: self.msg_fields@, body: self.msg_body@ }
    }
}

pub fn mailimf_message_new(msg_fields: mailimf_fields, msg_body: mailimf_body) -> (m: mailimf_message)
    ensures
        m.msg_fields == msg_fields,
        m.msg_body == msg_body,
{
    mailimf_message { msg_fields, msg_body }
}

/// message: header fields, an optional empty line, and the rest as the body.
pub open spec fn spec_message(s: Seq<u8>, i: int) -> Result<(MessageView, int), MailError> {
    match spec_fields_m(s, i, FieldMode::All) {
        Err(x) => Err(x),
        Ok((f, j)) => {
            let k = match spec_crlf(s, j) {
                Ok(k) => k,
                Err(_) => j,
            };
            Ok((MessageView { fields: f, body: s.subrange(k, s.len() as int) }, s.len() as int))
        },
    }
}

/// Reads a whole message.
pub fn mailimf_message_parse(message: &[u8], indx: usize) -> (r: Result<(mailimf_message, usize), MailError>)
    requires
        indx <= message@.len(),
    ensures
        res_view(r) == spec_message(message@, indx as int),
{
    let (f, j) = mailimf_fields_parse(message, indx)?;
    let k = match mailimf_crlf_parse(message, j) {
        Ok(k) => k,
        Err(_) => j,
    };
    let (b, e) = mailimf_body_parse(message, k)?;
    Ok((mailimf_message_new(f, b), e))
}


/// A new field of type `fld_type` (one of the `MAILIMF_FIELD_*` constants),
/// from the argument of that type; none when the type is another number or
/// its argument is missing.
#[verifier::spinoff_prover]
pub fn mailimf_field_new(
    fld_type: i32,
    fld_return_path: Option<mailimf_return>,
    fld_resent_date: Option<mailimf_orig_date>,
    fld_resent_from: Option<mailimf_from>,
    fld_resent_sender: Option<mailimf_sender>,
    fld_resent_to: Option<mailimf_to>,
    fld_resent_cc: Option<mailimf_cc>,
    fld_resent_bcc: Option<mailimf_bcc>,
    fld_resent_msg_id: Option<mailimf_message_id>,
    fld_orig_date: Option<mailimf_orig_date>,
    fld_from: Option<mailimf_from>,
    fld_sender: Option<mailimf_sender>,
    fld_reply_to: Option<mailimf_reply_to>,
    fld_to: Option<mailimf_to>,
    fld_cc: Option<mailimf_cc>,
    fld_bcc: Option<mailimf_bcc>,
    fld_message_id: Option<mailimf_message_id>,
    fld_in_reply_to: Option<mailimf_in_reply_to>,
    fld_references: Option<mailimf_references>,
    fld_subject: Option<mailimf_subject>,
    fld_comments: Option<mailimf_comments>,
    fld_keywords: Option<mailimf_keywords>,
    fld_optional_field: Option<mailimf_optional_field>,
) -> (f: Option<mailimf_field>)
    ensures
        f == (if fld_type == 1 && fld_return_path is Some {
            Some(mailimf_field::ReturnPath(fld_return_path.unwrap()))
        } else if fld_type == 2 && fld_resent_date is Some {
            Some(mailimf_field::ResentDate(fld_resent_date.unwrap()))
        } else if fld_type == 3 && fld_resent_from is Some {
            Some(mailimf_field::ResentFrom(fld_resent_from.unwrap()))
        } else if fld_type == 4 && fld_resent_sender is Some {
            Some(mailimf_field::ResentSender(fld_resent_sender.unwrap()))
        } else if fld_type == 5 && fld_resent_to is Some {
            Some(mailimf_field::ResentTo(fld_resent_to.unwrap()))
        } else if fld_type == 6 && fld_resent_cc is Some {
            Some(mailimf_field::ResentCc(fld_resent_cc.unwrap()))
        } else if fld_type == 7 && fld_resent_bcc is Some {
            Some(mailimf_field::ResentBcc(fld_resent_bcc.unwrap()))
        } else if fld_type == 8 && fld_resent_msg_id is Some {
            Some(mailimf_field::ResentMsgId(fld_resent_msg_id.unwrap()))
        } else if fld_type == 9 && fld_orig_date is Some {
            Some(mailimf_field::OrigDate(fld_orig_date.unwrap()))
        } else if fld_type == 10 && fld_from is Some {
            Some(mailimf_field::From(fld_from.unwrap()))
        } else if fld_type == 11 && fld_sender is Some {
            Some(mailimf_field::Sender(fld_sender.unwrap()))
        } else if fld_type == 12 && fld_reply_to is Some {
            Some(mailimf_field::ReplyTo(fld_reply_to.unwrap()))
        } else if fld_type == 13 && fld_to is Some {
            Some(mailimf_field::To(fld_to.unwrap()))
        } else if fld_type == 14 && fld_cc is Some {
            Some(mailimf_field::Cc(fld_cc.unwrap()))
        } else if fld_type == 15 && fld_bcc is Some {
            Some(mailimf_field::Bcc(fld_bcc.unwrap()))
        } else if fld_type == 16 && fld_message_id is Some {
            Some(mailimf_field::MessageId(fld_message_id.unwrap()))
        } else if fld_type == 17 && fld_in_reply_to is Some {
            Some(mailimf_field::InReplyTo(fld_in_reply_to.unwrap()))
        } else if fld_type == 18 && fld_references is Some {
            Some(mailimf_field::References(fld_references.unwrap()))
        } else if fld_type == 19 && fld_subject is Some {
            Some(mailimf_field::Subject(fld_subject.unwrap()))
        } else if fld_type == 20 && fld_comments is Some {
            Some(mailimf_field::Comments(fld_comments.unwrap()))
        } else if fld_type == 21 && fld_keywords is Some {
            Some(mailimf_field::Keywords(fld_keywords.unwrap()))
        } else if fld_type == 22 && fld_optional_field is Some {
            Some(mailimf_field::OptionalField(fld_optional_field.unwrap()))
        } else {
            None
        }),
{
    if fld_type == 1 {
        match fld_return_path { Some(x) => Some(mailimf_field::ReturnPath(x)), None => None }
    } else if fld_type == 2 {
        match fld_resent_date { Some(x) => Some(mailimf_field::ResentDate(x)), None => None }
    } else if fld_type == 3 {
        match fld_resent_from { Some(x) => Some(mailimf_field::ResentFrom(x)), None => None }
    } else if fld_type == 4 {
        match fld_resent_sender { Some(x) => Some(mailimf_field::ResentSender(x)), None => None }
    } else if fld_type == 5 {
        match fld_resent_to { Some(x) => Some(mailimf_field::ResentTo(x)), None => None }
    } else if fld_type == 6 {
        match fld_resent_cc { Some(x) => Some(mailimf_field::ResentCc(x)), None => None }
    } else if fld_type == 7 {
        match fld_resent_bcc { Some(x) => Some(mailimf_field::ResentBcc(x)), None => None }
    } else if fld_type == 8 {
        match fld_resent_msg_id { Some(x) => Some(mailimf_field::ResentMsgId(x)), None => None }
    } else if fld_type == 9 {
        match fld_orig_date { Some(x) => Some(mailimf_field::OrigDate(x)), None => None }
    } else if fld_type == 10 {
        match fld_from { Some(x) => Some(mailimf_field::From(x)), None => None }
    } else if fld_type == 11 {
        match fld_sender { Some(x) => Some(mailimf_field::Sender(x)), None => None }
    } else if fld_type == 12 {
        match fld_reply_to { Some(x) => Some(mailimf_field::ReplyTo(x)), None => None }
    } else if fld_type == 13 {
        match fld_to { Some(x) => Some(mailimf_field::To(x)), None => None }
    } else if fld_type == 14 {
        match fld_cc { Some(x) => Some(mailimf_field::Cc(x)), None => None }
    } else if fld_type == 15 {
        match fld_bcc { Some(x) => Some(mailimf_field::Bcc(x)), None => None }
    } else if fld_type == 16 {
        match fld_message_id { Some(x) => Some(mailimf_field::MessageId(x)), None => None }
    } else if fld_type == 17 {
        match fld_in_reply_to { Some(x) => Some(mailimf_field::InReplyTo(x)), None => None }
    } else if fld_type == 18 {
        match fld_references { Some(x) => Some(mailimf_field::References(x)), None => None }
    } else if fld_type == 19 {
        match fld_subject { Some(x) => Some(mailimf_field::Subject(x)), None => None }
    } else if fld_type == 20 {
        match fld_comments { Some(x) => Some(mailimf_field::Comments(x)), None => None }
    } else if fld_type == 21 {
        match fld_keywords { Some(x) => Some(mailimf_field::Keywords(x)), None => None }
    } else if fld_type == 22 {
        match fld_optional_field { Some(x) => Some(mailimf_field::OptionalField(x)), None => None }
    } else {
        None
    }
}

} // verus!
