//! Header fields of RFC 2822: each known field, the optional fields, the
//! header as a whole and the message.

use vstd::prelude::*;
use crate::MailError;
use crate::res_view;
use crate::lex::{spec_skip_cfws, spec_unstrict_char, spec_unstrict_crlf, spec_token_ci,
    spec_custom_string, spec_crlf, skip_cfws, mailimf_unstrict_char_parse,
    mailimf_unstrict_crlf_parse, mailimf_token_case_insensitive_len_parse, mailimf_crlf_parse,
    copy_range};
use crate::chars::{CharClass, spec_to_upper, to_upper};
use crate::words::{spec_phrase, spec_unstructured, mailimf_phrase_parse,
    mailimf_unstructured_parse, mailimf_field_name_parse};
use crate::date::{mailimf_date_time, spec_date_time, mailimf_date_time_parse};
use crate::address::{AddrEnd, spec_addr_spec_k, mailimf_addr_spec_parse, mailimf_mailbox,
    MailboxView, spec_mailbox, mailimf_mailbox_parse, mailimf_mailbox_list, spec_mailbox_list,
    mailimf_mailbox_list_parse, mailimf_address_list, AddressView, spec_address_list,
    mailimf_address_list_parse};
use crate::msgid::{spec_msg_id, spec_msg_id_list, mailimf_msg_id_parse,
    mailimf_msg_id_list_parse, bytes_list_view};

verus! {

/// The names of the header fields that are read for what they hold.
#[derive(PartialEq, Eq, Structural, Clone, Copy, Debug)]
pub enum HeaderName {
    ReturnPath,
    ResentDate,
    ResentFrom,
    ResentSender,
    ResentTo,
    ResentCc,
    ResentBcc,
    ResentMsgId,
    OrigDate,
    From,
    Sender,
    ReplyTo,
    To,
    Cc,
    Bcc,
    MessageId,
    InReplyTo,
    References,
    Subject,
    Comments,
    Keywords,
}

/// The name of a header field as it is written.
pub open spec fn header_name(k: HeaderName) -> Seq<u8> {
    match k {
        HeaderName::ReturnPath => seq![82u8, 101u8, 116u8, 117u8, 114u8, 110u8, 45u8, 80u8, 97u8, 116u8, 104u8],
        HeaderName::ResentDate => seq![82u8, 101u8, 115u8, 101u8, 110u8, 116u8, 45u8, 68u8, 97u8, 116u8, 101u8],
        HeaderName::ResentFrom => seq![82u8, 101u8, 115u8, 101u8, 110u8, 116u8, 45u8, 70u8, 114u8, 111u8, 109u8],
        HeaderName::ResentSender => seq![82u8, 101u8, 115u8, 101u8, 110u8, 116u8, 45u8, 83u8, 101u8, 110u8, 100u8, 101u8, 114u8],
        HeaderName::ResentTo => seq![82u8, 101u8, 115u8, 101u8, 110u8, 116u8, 45u8, 84u8, 111u8],
        HeaderName::ResentCc => seq![82u8, 101u8, 115u8, 101u8, 110u8, 116u8, 45u8, 67u8, 99u8],
        HeaderName::ResentBcc => seq![82u8, 101u8, 115u8, 101u8, 110u8, 116u8, 45u8, 66u8, 99u8, 99u8],
        HeaderName::ResentMsgId => seq![82u8, 101u8, 115u8, 101u8, 110u8, 116u8, 45u8, 77u8, 101u8, 115u8, 115u8, 97u8, 103u8, 101u8, 45u8, 73u8, 68u8],
        HeaderName::OrigDate => seq![68u8, 97u8, 116u8, 101u8],
        HeaderName::From => seq![70u8, 114u8, 111u8, 109u8],
        HeaderName::Sender => seq![83u8, 101u8, 110u8, 100u8, 101u8, 114u8],
        HeaderName::ReplyTo => seq![82u8, 101u8, 112u8, 108u8, 121u8, 45u8, 84u8, 111u8],
        HeaderName::To => seq![84u8, 111u8],
        HeaderName::Cc => seq![67u8, 99u8],
        HeaderName::Bcc => seq![66u8, 99u8, 99u8],
        HeaderName::MessageId => seq![77u8, 101u8, 115u8, 115u8, 97u8, 103u8, 101u8, 45u8, 73u8, 68u8],
        HeaderName::InReplyTo => seq![73u8, 110u8, 45u8, 82u8, 101u8, 112u8, 108u8, 121u8, 45u8, 84u8, 111u8],
        HeaderName::References => seq![82u8, 101u8, 102u8, 101u8, 114u8, 101u8, 110u8, 99u8, 101u8, 115u8],
        HeaderName::Subject => seq![83u8, 117u8, 98u8, 106u8, 101u8, 99u8, 116u8],
        HeaderName::Comments => seq![67u8, 111u8, 109u8, 109u8, 101u8, 110u8, 116u8, 115u8],
        HeaderName::Keywords => seq![75u8, 101u8, 121u8, 119u8, 111u8, 114u8, 100u8, 115u8],
    }
}

pub fn header_name_bytes(k: HeaderName) -> (v: Vec<u8>)
    ensures
        v@ == header_name(k),
        v@.len() > 0,
{
    match k {
        HeaderName::ReturnPath => vec![82u8, 101u8, 116u8, 117u8, 114u8, 110u8, 45u8, 80u8, 97u8, 116u8, 104u8],
        HeaderName::ResentDate => vec![82u8, 101u8, 115u8, 101u8, 110u8, 116u8, 45u8, 68u8, 97u8, 116u8, 101u8],
        HeaderName::ResentFrom => vec![82u8, 101u8, 115u8, 101u8, 110u8, 116u8, 45u8, 70u8, 114u8, 111u8, 109u8],
        HeaderName::ResentSender => vec![82u8, 101u8, 115u8, 101u8, 110u8, 116u8, 45u8, 83u8, 101u8, 110u8, 100u8, 101u8, 114u8],
        HeaderName::ResentTo => vec![82u8, 101u8, 115u8, 101u8, 110u8, 116u8, 45u8, 84u8, 111u8],
        HeaderName::ResentCc => vec![82u8, 101u8, 115u8, 101u8, 110u8, 116u8, 45u8, 67u8, 99u8],
        HeaderName::ResentBcc => vec![82u8, 101u8, 115u8, 101u8, 110u8, 116u8, 45u8, 66u8, 99u8, 99u8],
        HeaderName::ResentMsgId => vec![82u8, 101u8, 115u8, 101u8, 110u8, 116u8, 45u8, 77u8, 101u8, 115u8, 115u8, 97u8, 103u8, 101u8, 45u8, 73u8, 68u8],
        HeaderName::OrigDate => vec![68u8, 97u8, 116u8, 101u8],
        HeaderName::From => vec![70u8, 114u8, 111u8, 109u8],
        HeaderName::Sender => vec![83u8, 101u8, 110u8, 100u8, 101u8, 114u8],
        HeaderName::ReplyTo => vec![82u8, 101u8, 112u8, 108u8, 121u8, 45u8, 84u8, 111u8],
        HeaderName::To => vec![84u8, 111u8],
        HeaderName::Cc => vec![67u8, 99u8],
        HeaderName::Bcc => vec![66u8, 99u8, 99u8],
        HeaderName::MessageId => vec![77u8, 101u8, 115u8, 115u8, 97u8, 103u8, 101u8, 45u8, 73u8, 68u8],
        HeaderName::InReplyTo => vec![73u8, 110u8, 45u8, 82u8, 101u8, 112u8, 108u8, 121u8, 45u8, 84u8, 111u8],
        HeaderName::References => vec![82u8, 101u8, 102u8, 101u8, 114u8, 101u8, 110u8, 99u8, 101u8, 115u8],
        HeaderName::Subject => vec![83u8, 117u8, 98u8, 106u8, 101u8, 99u8, 116u8],
        HeaderName::Comments => vec![67u8, 111u8, 109u8, 109u8, 101u8, 110u8, 116u8, 115u8],
        HeaderName::Keywords => vec![75u8, 101u8, 121u8, 119u8, 111u8, 114u8, 100u8, 115u8],
    }
}

/// A field name and its colon: gives the position after the colon.
pub open spec fn spec_field_head(s: Seq<u8>, i: int, k: HeaderName) -> Result<int, MailError> {
    match spec_token_ci(s, i, header_name(k)) {
        Err(x) => Err(x),
        Ok(j) => spec_unstrict_char(s, j, 58),
    }
}

fn field_head(message: &[u8], indx: usize, k: HeaderName) -> (r: Result<usize, MailError>)
    requires
        indx <= message@.len(),
    ensures
        crate::pos_view(r) == spec_field_head(message@, indx as int, k),
        r matches Ok(j) ==> indx < j <= message@.len(),
{
    let name = header_name_bytes(k);
    let j = mailimf_token_case_insensitive_len_parse(message, indx, name.as_slice())?;
    mailimf_unstrict_char_parse(message, j, 58)
}

/// A whole field: its name, a colon, the value that `vp` reads from the
/// position after the colon, and the end of the line.
pub open spec fn spec_field_frame<V>(s: Seq<u8>, i: int, k: HeaderName, vp: spec_fn(int) -> Result<(V, int), MailError>) -> Result<(V, int), MailError> {
    match spec_field_head(s, i, k) {
        Err(x) => Err(x),
        Ok(j) => match vp(j) {
            Err(x) => Err(x),
            Ok((v, e)) => match spec_unstrict_crlf(s, e) {
                Err(x) => Err(x),
                Ok(f) => Ok((v, f)),
            },
        },
    }
}

/// Date: or Resent-Date:
#[allow(non_camel_case_types)]
pub struct mailimf_orig_date {
    pub dt_date_time: mailimf_date_time,
}

impl View for mailimf_orig_date {
    type V = mailimf_date_time;

    open spec fn view(&self) -> mailimf_date_time {
        self.dt_date_time
    }
}

/// From: or Resent-From:
#[allow(non_camel_case_types)]
pub struct mailimf_from {
    pub frm_mb_list: mailimf_mailbox_list,
}

impl View for mailimf_from {
    type V = Seq<MailboxView>;

    open spec fn view(&self) -> Seq<MailboxView> {
        self.frm_mb_list@
    }
}

/// Sender: or Resent-Sender:
#[allow(non_camel_case_types)]
pub struct mailimf_sender {
    pub snd_mb: mailimf_mailbox,
}

impl View for mailimf_sender {
    type V = MailboxView;

    open spec fn view(&self) -> MailboxView {
        self.snd_mb@
    }
}

/// Reply-To:
#[allow(non_camel_case_types)]
pub struct mailimf_reply_to {
    pub rt_addr_list: mailimf_address_list,
}

impl View for mailimf_reply_to {
    type V = Seq<AddressView>;

    open spec fn view(&self) -> Seq<AddressView> {
        self.rt_addr_list@
    }
}

/// To: or Resent-To:
#[allow(non_camel_case_types)]
pub struct mailimf_to {
    pub to_addr_list: mailimf_address_list,
}

impl View for mailimf_to {
    type V = Seq<AddressView>;

    open spec fn view(&self) -> Seq<AddressView> {
        self.to_addr_list@
    }
}

/// Cc: or Resent-Cc:
#[allow(non_camel_case_types)]
pub struct mailimf_cc {
    pub cc_addr_list: mailimf_address_list,
}

impl View for mailimf_cc {
    type V = Seq<AddressView>;

    open spec fn view(&self) -> Seq<AddressView> {
        self.cc_addr_list@
    }
}

/// Bcc: or Resent-Bcc:, whose list may be missing.
#[allow(non_camel_case_types)]
pub struct mailimf_bcc {
    pub bcc_addr_list: Option<mailimf_address_list>,
}

impl View for mailimf_bcc {
    type V = Option<Seq<AddressView>>;

    open spec fn view(&self) -> Option<Seq<AddressView>> {
        match self.bcc_addr_list {
            Some(l) => Some(l@),
            None => None,
        }
    }
}

/// Message-ID: or Resent-Message-ID:
#[allow(non_camel_case_types)]
pub struct mailimf_message_id {
    pub mid_value: Vec<u8>,
}

impl View for mailimf_message_id {
    type V = Seq<u8>;

    open spec fn view(&self) -> Seq<u8> {
        self.mid_value@
    }
}

/// In-Reply-To:
#[allow(non_camel_case_types)]
pub struct mailimf_in_reply_to {
    pub mid_list: Vec<Vec<u8>>,
}

impl View for mailimf_in_reply_to {
    type V = Seq<Seq<u8>>;

    open spec fn view(&self) -> Seq<Seq<u8>> {
        bytes_list_view(self.mid_list@)
    }
}

/// References:
#[allow(non_camel_case_types)]
pub struct mailimf_references {
    pub mid_list: Vec<Vec<u8>>,
}

impl View for mailimf_references {
    type V = Seq<Seq<u8>>;

    open spec fn view(&self) -> Seq<Seq<u8>> {
        bytes_list_view(self.mid_list@)
    }
}

/// Subject:
#[allow(non_camel_case_types)]
pub struct mailimf_subject {
    pub sbj_value: Vec<u8>,
}

impl View for mailimf_subject {
    type V = Seq<u8>;

    open spec fn view(&self) -> Seq<u8> {
        self.sbj_value@
    }
}

/// Comments:
#[allow(non_camel_case_types)]
pub struct mailimf_comments {
    pub cm_value: Vec<u8>,
}

impl View for mailimf_comments {
    type V = Seq<u8>;

    open spec fn view(&self) -> Seq<u8> {
        self.cm_value@
    }
}

/// Keywords:
#[allow(non_camel_case_types)]
pub struct mailimf_keywords {
    pub kw_list: Vec<Vec<u8>>,
}

impl View for mailimf_keywords {
    type V = Seq<Seq<u8>>;

    open spec fn view(&self) -> Seq<Seq<u8>> {
        bytes_list_view(self.kw_list@)
    }
}

/// The path of a Return-Path: field, which may be empty (`<>`).
#[allow(non_camel_case_types)]
pub struct mailimf_path {
    pub pt_addr_spec: Option<Vec<u8>>,
}

impl View for mailimf_path {
    type V = Option<Seq<u8>>;

    open spec fn view(&self) -> Option<Seq<u8>> {
        crate::address::opt_bytes_view(self.pt_addr_spec)
    }
}

/// Return-Path:
#[allow(non_camel_case_types)]
pub struct mailimf_return {
    pub ret_path: mailimf_path,
}

impl View for mailimf_return {
    type V = Option<Seq<u8>>;

    open spec fn view(&self) -> Option<Seq<u8>> {
        self.ret_path@
    }
}

/// A field that is kept as a name and its unstructured text.
#[allow(non_camel_case_types)]
pub struct mailimf_optional_field {
    pub fld_name: Vec<u8>,
    pub fld_value: Vec<u8>,
}

pub struct OptionalFieldView {
    pub name: Seq<u8>,
    pub value: Seq<u8>,
}

impl View for mailimf_optional_field {
    type V = OptionalFieldView;

    open spec fn view(&self) -> OptionalFieldView {
        OptionalFieldView { name: self.fld_name@, value: self.fld_value@ }
    }
}

pub fn mailimf_optional_field_new(fld_name: Vec<u8>, fld_value: Vec<u8>) -> (f: mailimf_optional_field)
    ensures
        f@ == (OptionalFieldView { name: fld_name@, value: fld_value@ }),
{
    mailimf_optional_field { fld_name, fld_value }
}

/// optional-field: a field name, a colon, unstructured text and the end of the line.
pub open spec fn spec_optional_field(s: Seq<u8>, i: int) -> Result<(OptionalFieldView, int), MailError> {
    match spec_custom_string(s, i, CharClass::Ftext) {
        Err(x) => Err(x),
        Ok((name, j)) => match spec_unstrict_char(s, j, 58) {
            Err(x) => Err(x),
            Ok(k) => match spec_unstructured(s, k) {
                Err(x) => Err(x),
                Ok((value, e)) => match spec_unstrict_crlf(s, e) {
                    Err(x) => Err(x),
                    Ok(f) => Ok((OptionalFieldView { name, value }, f)),
                },
            },
        },
    }
}

pub fn mailimf_optional_field_parse(message: &[u8], indx: usize) -> (r: Result<(mailimf_optional_field, usize), MailError>)
    requires
        indx <= message@.len(),
    ensures
        res_view(r) == spec_optional_field(message@, indx as int),
        r matches Ok((_, j)) ==> indx < j <= message@.len(),
{
    let (name, j) = mailimf_field_name_parse(message, indx)?;
    let k = mailimf_unstrict_char_parse(message, j, 58)?;
    let (value, e) = mailimf_unstructured_parse(message, k)?;
    let f = mailimf_unstrict_crlf_parse(message, e)?;
    Ok((mailimf_optional_field_new(name, value), f))
}

pub open spec fn spec_orig_date_k(s: Seq<u8>, i: int, k: HeaderName) -> Result<(mailimf_date_time, int), MailError> {
    spec_field_frame(s, i, k, |j: int| spec_date_time(s, j))
}

fn orig_date_k(message: &[u8], indx: usize, k: HeaderName) -> (r: Result<(mailimf_orig_date, usize), MailError>)
    requires
        indx <= message@.len(),
    ensures
        res_view(r) == spec_orig_date_k(message@, indx as int, k),
        r matches Ok((_, j)) ==> indx < j <= message@.len(),
{
    let j = field_head(message, indx, k)?;
    let (d, e) = mailimf_date_time_parse(message, j)?;
    let f = mailimf_unstrict_crlf_parse(message, e)?;
    Ok((mailimf_orig_date { dt_date_time: d }, f))
}

/// Date: field.
pub fn mailimf_orig_date_parse(message: &[u8], indx: usize) -> (r: Result<(mailimf_orig_date, usize), MailError>)
    requires
        indx <= message@.len(),
    ensures
        res_view(r) == spec_orig_date_k(message@, indx as int, HeaderName::OrigDate),
        r matches Ok((_, j)) ==> indx < j <= message@.len(),
{
    orig_date_k(message, indx, HeaderName::OrigDate)
}

/// Resent-Date: field.
pub fn mailimf_resent_date_parse(message: &[u8], indx: usize) -> (r: Result<(mailimf_orig_date, usize), MailError>)
    requires
        indx <= message@.len(),
    ensures
        res_view(r) == spec_orig_date_k(message@, indx as int, HeaderName::ResentDate),
        r matches Ok((_, j)) ==> indx < j <= message@.len(),
{
    orig_date_k(message, indx, HeaderName::ResentDate)
}

pub open spec fn spec_from_k(s: Seq<u8>, i: int, k: HeaderName) -> Result<(Seq<MailboxView>, int), MailError> {
    spec_field_frame(s, i, k, |j: int| spec_mailbox_list(s, j))
}

fn from_k(message: &[u8], indx: usize, k: HeaderName) -> (r: Result<(mailimf_from, usize), MailError>)
    requires
        indx <= message@.len(),
    ensures
        res_view(r) == spec_from_k(message@, indx as int, k),
        r matches Ok((_, j)) ==> indx < j <= message@.len(),
{
    let j = field_head(message, indx, k)?;
    let (l, e) = mailimf_mailbox_list_parse(message, j)?;
    let f = mailimf_unstrict_crlf_parse(message, e)?;
    Ok((mailimf_from { frm_mb_list: l }, f))
}

/// From: field.
pub fn mailimf_from_parse(message: &[u8], indx: usize) -> (r: Result<(mailimf_from, usize), MailError>)
    requires
        indx <= message@.len(),
    ensures
        res_view(r) == spec_from_k(message@, indx as int, HeaderName::From),
        r matches Ok((_, j)) ==> indx < j <= message@.len(),
{
    from_k(message, indx, HeaderName::From)
}

/// Resent-From: field.
pub fn mailimf_resent_from_parse(message: &[u8], indx: usize) -> (r: Result<(mailimf_from, usize), MailError>)
    requires
        indx <= message@.len(),
    ensures
        res_view(r) == spec_from_k(message@, indx as int, HeaderName::ResentFrom),
        r matches Ok((_, j)) ==> indx < j <= message@.len(),
{
    from_k(message, indx, HeaderName::ResentFrom)
}

pub open spec fn spec_sender_k(s: Seq<u8>, i: int, k: HeaderName) -> Result<(MailboxView, int), MailError> {
    spec_field_frame(s, i, k, |j: int| spec_mailbox(s, j))
}

fn sender_k(message: &[u8], indx: usize, k: HeaderName) -> (r: Result<(mailimf_sender, usize), MailError>)
    requires
        indx <= message@.len(),
    ensures
        res_view(r) == spec_sender_k(message@, indx as int, k),
        r matches Ok((_, j)) ==> indx < j <= message@.len(),
{
    let j = field_head(message, indx, k)?;
    let (m, e) = mailimf_mailbox_parse(message, j)?;
    let f = mailimf_unstrict_crlf_parse(message, e)?;
    Ok((mailimf_sender { snd_mb: m }, f))
}

/// Sender: field.
pub fn mailimf_sender_parse(message: &[u8], indx: usize) -> (r: Result<(mailimf_sender, usize), MailError>)
    requires
        indx <= message@.len(),
    ensures
        res_view(r) == spec_sender_k(message@, indx as int, HeaderName::Sender),
        r matches Ok((_, j)) ==> indx < j <= message@.len(),
{
    sender_k(message, indx, HeaderName::Sender)
}

/// Resent-Sender: field.
pub fn mailimf_resent_sender_parse(message: &[u8], indx: usize) -> (r: Result<(mailimf_sender, usize), MailError>)
    requires
        indx <= message@.len(),
    ensures
        res_view(r) == spec_sender_k(message@, indx as int, HeaderName::ResentSender),
        r matches Ok((_, j)) ==> indx < j <= message@.len(),
{
    sender_k(message, indx, HeaderName::ResentSender)
}

pub open spec fn spec_addr_field_k(s: Seq<u8>, i: int, k: HeaderName) -> Result<(Seq<AddressView>, int), MailError> {
    spec_field_frame(s, i, k, |j: int| spec_address_list(s, j))
}

fn addr_field_k(message: &[u8], indx: usize, k: HeaderName) -> (r: Result<(mailimf_address_list, usize), MailError>)
    requires
        indx <= message@.len(),
    ensures
        res_view(r) == spec_addr_field_k(message@, indx as int, k),
        r matches Ok((_, j)) ==> indx < j <= message@.len(),
{
    let j = field_head(message, indx, k)?;
    let (l, e) = mailimf_address_list_parse(message, j)?;
    let f = mailimf_unstrict_crlf_parse(message, e)?;
    Ok((l, f))
}

/// Reply-To: field.
pub fn mailimf_reply_to_parse(message: &[u8], indx: usize) -> (r: Result<(mailimf_reply_to, usize), MailError>)
    requires
        indx <= message@.len(),
    ensures
        res_view(r) == spec_addr_field_k(message@, indx as int, HeaderName::ReplyTo),
        r matches Ok((_, j)) ==> indx < j <= message@.len(),
{
    let (l, f) = addr_field_k(message, indx, HeaderName::ReplyTo)?;
    Ok((mailimf_reply_to { rt_addr_list: l }, f))
}

/// To: field.
pub fn mailimf_to_parse(message: &[u8], indx: usize) -> (r: Result<(mailimf_to, usize), MailError>)
    requires
        indx <= message@.len(),
    ensures
        res_view(r) == spec_addr_field_k(message@, indx as int, HeaderName::To),
        r matches Ok((_, j)) ==> indx < j <= message@.len(),
{
    let (l, f) = addr_field_k(message, indx, HeaderName::To)?;
    Ok((mailimf_to { to_addr_list: l }, f))
}

/// Resent-To: field.
pub fn mailimf_resent_to_parse(message: &[u8], indx: usize) -> (r: Result<(mailimf_to, usize), MailError>)
    requires
        indx <= message@.len(),
    ensures
        res_view(r) == spec_addr_field_k(message@, indx as int, HeaderName::ResentTo),
        r matches Ok((_, j)) ==> indx < j <= message@.len(),
{
    let (l, f) = addr_field_k(message, indx, HeaderName::ResentTo)?;
    Ok((mailimf_to { to_addr_list: l }, f))
}

/// Cc: field.
pub fn mailimf_cc_parse(message: &[u8], indx: usize) -> (r: Result<(mailimf_cc, usize), MailError>)
    requires
        indx <= message@.len(),
    ensures
        res_view(r) == spec_addr_field_k(message@, indx as int, HeaderName::Cc),
        r matches Ok((_, j)) ==> indx < j <= message@.len(),
{
    let (l, f) = addr_field_k(message, indx, HeaderName::Cc)?;
    Ok((mailimf_cc { cc_addr_list: l }, f))
}

/// Resent-Cc: field.
pub fn mailimf_resent_cc_parse(message: &[u8], indx: usize) -> (r: Result<(mailimf_cc, usize), MailError>)
    requires
        indx <= message@.len(),
    ensures
        res_view(r) == spec_addr_field_k(message@, indx as int, HeaderName::ResentCc),
        r matches Ok((_, j)) ==> indx < j <= message@.len(),
{
    let (l, f) = addr_field_k(message, indx, HeaderName::ResentCc)?;
    Ok((mailimf_cc { cc_addr_list: l }, f))
}

/// The value of a Bcc: field: an address list, or nothing but CFWS.
pub open spec fn spec_bcc_value(s: Seq<u8>, j: int) -> Result<(Option<Seq<AddressView>>, int), MailError> {
    match spec_address_list(s, j) {
        Ok((l, e)) => Ok((Some(l), e)),
        Err(MailError::Parse) => Ok((None, spec_skip_cfws(s, j))),
        Err(x) => Err(x),
    }
}

pub open spec fn spec_bcc_k(s: Seq<u8>, i: int, k: HeaderName) -> Result<(Option<Seq<AddressView>>, int), MailError> {
    spec_field_frame(s, i, k, |j: int| spec_bcc_value(s, j))
}

fn bcc_k(message: &[u8], indx: usize, k: HeaderName) -> (r: Result<(mailimf_bcc, usize), MailError>)
    requires
        indx <= message@.len(),
    ensures
        res_view(r) == spec_bcc_k(message@, indx as int, k),
        r matches Ok((_, j)) ==> indx < j <= message@.len(),
{
    let j = field_head(message, indx, k)?;
    let (l, e) = match mailimf_address_list_parse(message, j) {
        Ok((l, e)) => (Some(l), e),
        Err(MailError::Parse) => (None, skip_cfws(message, j)),
        Err(x) => return Err(x),
    };
    let f = mailimf_unstrict_crlf_parse(message, e)?;
    Ok((mailimf_bcc { bcc_addr_list: l }, f))
}

/// Bcc: field.
pub fn mailimf_bcc_parse(message: &[u8], indx: usize) -> (r: Result<(mailimf_bcc, usize), MailError>)
    requires
        indx <= message@.len(),
    ensures
        res_view(r) == spec_bcc_k(message@, indx as int, HeaderName::Bcc),
        r matches Ok((_, j)) ==> indx < j <= message@.len(),
{
    bcc_k(message, indx, HeaderName::Bcc)
}

/// Resent-Bcc: field.
pub fn mailimf_resent_bcc_parse(message: &[u8], indx: usize) -> (r: Result<(mailimf_bcc, usize), MailError>)
    requires
        indx <= message@.len(),
    ensures
        res_view(r) == spec_bcc_k(message@, indx as int, HeaderName::ResentBcc),
        r matches Ok((_, j)) ==> indx < j <= message@.len(),
{
    bcc_k(message, indx, HeaderName::ResentBcc)
}

pub open spec fn spec_message_id_k(s: Seq<u8>, i: int, k: HeaderName) -> Result<(Seq<u8>, int), MailError> {
    spec_field_frame(s, i, k, |j: int| spec_msg_id(s, j))
}

fn message_id_k(message: &[u8], indx: usize, k: HeaderName) -> (r: Result<(mailimf_message_id, usize), MailError>)
    requires
        indx <= message@.len(),
    ensures
        res_view(r) == spec_message_id_k(message@, indx as int, k),
        r matches Ok((_, j)) ==> indx < j <= message@.len(),
{
    let j = field_head(message, indx, k)?;
    let (v, e) = mailimf_msg_id_parse(message, j)?;
    let f = mailimf_unstrict_crlf_parse(message, e)?;
    Ok((mailimf_message_id { mid_value: v }, f))
}

/// Message-ID: field.
pub fn mailimf_message_id_parse(message: &[u8], indx: usize) -> (r: Result<(mailimf_message_id, usize), MailError>)
    requires
        indx <= message@.len(),
    ensures
        res_view(r) == spec_message_id_k(message@, indx as int, HeaderName::MessageId),
        r matches Ok((_, j)) ==> indx < j <= message@.len(),
{
    message_id_k(message, indx, HeaderName::MessageId)
}

/// Resent-Message-ID: field.
pub fn mailimf_resent_msg_id_parse(message: &[u8], indx: usize) -> (r: Result<(mailimf_message_id, usize), MailError>)
    requires
        indx <= message@.len(),
    ensures
        res_view(r) == spec_message_id_k(message@, indx as int, HeaderName::ResentMsgId),
        r matches Ok((_, j)) ==> indx < j <= message@.len(),
{
    message_id_k(message, indx, HeaderName::ResentMsgId)
}

pub open spec fn spec_msg_ids_k(s: Seq<u8>, i: int, k: HeaderName) -> Result<(Seq<Seq<u8>>, int), MailError> {
    spec_field_frame(s, i, k, |j: int| spec_msg_id_list(s, j))
}

fn msg_ids_k(message: &[u8], indx: usize, k: HeaderName) -> (r: Result<(Vec<Vec<u8>>, usize), MailError>)
    requires
        indx <= message@.len(),
    ensures
        match r {
            Ok((l, j)) => spec_msg_ids_k(message@, indx as int, k) == Ok::<(Seq<Seq<u8>>, int), MailError>((bytes_list_view(l@), j as int)),
            Err(x) => spec_msg_ids_k(message@, indx as int, k) == Err::<(Seq<Seq<u8>>, int), MailError>(x),
        },
        r matches Ok((_, j)) ==> indx < j <= message@.len(),
{
    let j = field_head(message, indx, k)?;
    let (l, e) = mailimf_msg_id_list_parse(message, j)?;
    let f = mailimf_unstrict_crlf_parse(message, e)?;
    Ok((l, f))
}

/// In-Reply-To: field.
pub fn mailimf_in_reply_to_parse(message: &[u8], indx: usize) -> (r: Result<(mailimf_in_reply_to, usize), MailError>)
    requires
        indx <= message@.len(),
    ensures
        res_view(r) == spec_msg_ids_k(message@, indx as int, HeaderName::InReplyTo),
        r matches Ok((_, j)) ==> indx < j <= message@.len(),
{
    let (l, f) = msg_ids_k(message, indx, HeaderName::InReplyTo)?;
    Ok((mailimf_in_reply_to { mid_list: l }, f))
}

/// References: field.
pub fn mailimf_references_parse(message: &[u8], indx: usize) -> (r: Result<(mailimf_references, usize), MailError>)
    requires
        indx <= message@.len(),
    ensures
        res_view(r) == spec_msg_ids_k(message@, indx as int, HeaderName::References),
        r matches Ok((_, j)) ==> indx < j <= message@.len(),
{
    let (l, f) = msg_ids_k(message, indx, HeaderName::References)?;
    Ok((mailimf_references { mid_list: l }, f))
}

pub open spec fn spec_text_field_k(s: Seq<u8>, i: int, k: HeaderName) -> Result<(Seq<u8>, int), MailError> {
    spec_field_frame(s, i, k, |j: int| spec_unstructured(s, j))
}

fn text_field_k(message: &[u8], indx: usize, k: HeaderName) -> (r: Result<(Vec<u8>, usize), MailError>)
    requires
        indx <= message@.len(),
    ensures
        res_view(r) == spec_text_field_k(message@, indx as int, k),
        r matches Ok((_, j)) ==> indx < j <= message@.len(),
{
    let j = field_head(message, indx, k)?;
    let (v, e) = mailimf_unstructured_parse(message, j)?;
    let f = mailimf_unstrict_crlf_parse(message, e)?;
    Ok((v, f))
}

/// Subject: field.
pub fn mailimf_subject_parse(message: &[u8], indx: usize) -> (r: Result<(mailimf_subject, usize), MailError>)
    requires
        indx <= message@.len(),
    ensures
        res_view(r) == spec_text_field_k(message@, indx as int, HeaderName::Subject),
        r matches Ok((_, j)) ==> indx < j <= message@.len(),
{
    let (v, f) = text_field_k(message, indx, HeaderName::Subject)?;
    Ok((mailimf_subject { sbj_value: v }, f))
}

/// Comments: field.
pub fn mailimf_comments_parse(message: &[u8], indx: usize) -> (r: Result<(mailimf_comments, usize), MailError>)
    requires
        indx <= message@.len(),
    ensures
        res_view(r) == spec_text_field_k(message@, indx as int, HeaderName::Comments),
        r matches Ok((_, j)) ==> indx < j <= message@.len(),
{
    let (v, f) = text_field_k(message, indx, HeaderName::Comments)?;
    Ok((mailimf_comments { cm_value: v }, f))
}

/// Phrases that each follow a comma, from `p`, added to `acc`.
pub open spec fn spec_phrase_list_rest(s: Seq<u8>, p: int, acc: Seq<Seq<u8>>) -> Result<(Seq<Seq<u8>>, int), MailError>
    decreases s.len() - p,
{
    match spec_unstrict_char(s, p, 44) {
        Err(_) => Ok((acc, p)),
        Ok(k) => match spec_phrase(s, k) {
            Err(MailError::Parse) => Ok((acc, p)),
            Err(x) => Err(x),
            Ok((w, e)) => if 0 <= p < e <= s.len() {
                spec_phrase_list_rest(s, e, acc.push(w))
            } else {
                Err(MailError::Parse)
            },
        },
    }
}

/// One or more phrases separated by commas.
pub open spec fn spec_phrase_list(s: Seq<u8>, i: int) -> Result<(Seq<Seq<u8>>, int), MailError> {
    match spec_phrase(s, i) {
        Err(x) => Err(x),
        Ok((w, j)) => spec_phrase_list_rest(s, j, seq![w]),
    }
}

fn phrase_list(message: &[u8], indx: usize) -> (r: Result<(Vec<Vec<u8>>, usize), MailError>)
    requires
        indx <= message@.len(),
    ensures
        match r {
            Ok((l, j)) => spec_phrase_list(message@, indx as int) == Ok::<(Seq<Seq<u8>>, int), MailError>((bytes_list_view(l@), j as int)),
            Err(x) => spec_phrase_list(message@, indx as int) == Err::<(Seq<Seq<u8>>, int), MailError>(x),
        },
        r matches Ok((_, j)) ==> indx < j <= message@.len(),
{
    let (w, j) = mailimf_phrase_parse(message, indx)?;
    let ghost whole = spec_phrase_list_rest(message@, j as int, seq![w@]);
    let mut list: Vec<Vec<u8>> = Vec::new();
    list.push(w);
    assert(bytes_list_view(list@) =~= seq![list@[0]@]);
    let mut cur: usize = j;
    loop
        invariant
            indx < cur <= message@.len(),
            whole == spec_phrase_list(message@, indx as int),
            whole == spec_phrase_list_rest(message@, cur as int, bytes_list_view(list@)),
        decreases message@.len() - cur,
    {
        proof {
            crate::lex::lemma_cfws(message@, cur as int);
        }
        let k = match mailimf_unstrict_char_parse(message, cur, 44) {
            Ok(k) => k,
            Err(_) => {
                return Ok((list, cur));
            },
        };
        match mailimf_phrase_parse(message, k) {
            Ok((w, e)) => {
                let ghost l0 = list@;
                let ghost wv = w@;
                list.push(w);
                assert(bytes_list_view(list@) =~= bytes_list_view(l0).push(wv));
                cur = e;
            },
            Err(MailError::Parse) => {
                return Ok((list, cur));
            },
            Err(x) => {
                return Err(x);
            },
        }
    }
}

pub open spec fn spec_keywords(s: Seq<u8>, i: int) -> Result<(Seq<Seq<u8>>, int), MailError> {
    spec_field_frame(s, i, HeaderName::Keywords, |j: int| spec_phrase_list(s, j))
}

/// Keywords: field.
pub fn mailimf_keywords_parse(message: &[u8], indx: usize) -> (r: Result<(mailimf_keywords, usize), MailError>)
    requires
        indx <= message@.len(),
    ensures
        res_view(r) == spec_keywords(message@, indx as int),
        r matches Ok((_, j)) ==> indx < j <= message@.len(),
{
    let j = field_head(message, indx, HeaderName::Keywords)?;
    let (l, e) = phrase_list(message, j)?;
    let f = mailimf_unstrict_crlf_parse(message, e)?;
    Ok((mailimf_keywords { kw_list: l }, f))
}

/// path: `<` and an optional addr-spec and `>`, with optional CFWS around.
pub open spec fn spec_path(s: Seq<u8>, i: int) -> Result<(Option<Seq<u8>>, int), MailError> {
    match spec_unstrict_char(s, spec_skip_cfws(s, i), 60) {
        Err(x) => Err(x),
        Ok(j) => {
            let (a, k) = match spec_addr_spec_k(s, j, AddrEnd::Address) {
                Ok((a, k)) => (Some(a), k),
                Err(_) => (None, spec_skip_cfws(s, j)),
            };
            match spec_unstrict_char(s, k, 62) {
                Err(x) => Err(x),
                Ok(e) => Ok((a, e)),
            }
        },
    }
}

pub fn mailimf_path_parse(message: &[u8], indx: usize) -> (r: Result<(mailimf_path, usize), MailError>)
    requires
        indx <= message@.len(),
    ensures
        res_view(r) == spec_path(message@, indx as int),
        r matches Ok((_, j)) ==> indx < j <= message@.len(),
{
    let k0 = skip_cfws(message, indx);
    let j = mailimf_unstrict_char_parse(message, k0, 60)?;
    let (a, k) = match mailimf_addr_spec_parse(message, j) {
        Ok((a, k)) => (Some(a), k),
        Err(_) => (None, skip_cfws(message, j)),
    };
    let e = mailimf_unstrict_char_parse(message, k, 62)?;
    Ok((mailimf_path { pt_addr_spec: a }, e))
}

pub open spec fn spec_return(s: Seq<u8>, i: int) -> Result<(Option<Seq<u8>>, int), MailError> {
    spec_field_frame(s, i, HeaderName::ReturnPath, |j: int| spec_path(s, j))
}

/// Return-Path: field.
pub fn mailimf_return_parse(message: &[u8], indx: usize) -> (r: Result<(mailimf_return, usize), MailError>)
    requires
        indx <= message@.len(),
    ensures
        res_view(r) == spec_return(message@, indx as int),
        r matches Ok((_, j)) ==> indx < j <= message@.len(),
{
    let j = field_head(message, indx, HeaderName::ReturnPath)?;
    let (p, e) = mailimf_path_parse(message, j)?;
    let f = mailimf_unstrict_crlf_parse(message, e)?;
    Ok((mailimf_return { ret_path: p }, f))
}


/// A new `mailimf_orig_date` that holds `dt_date_time`.
pub fn mailimf_orig_date_new(dt_date_time: mailimf_date_time) -> (r: mailimf_orig_date)
    ensures
        r.dt_date_time == dt_date_time,
{
    mailimf_orig_date { dt_date_time }
}

/// A new `mailimf_from` that holds `frm_mb_list`.
pub fn mailimf_from_new(frm_mb_list: mailimf_mailbox_list) -> (r: mailimf_from)
    ensures
        r.frm_mb_list == frm_mb_list,
{
    mailimf_from { frm_mb_list }
}

/// A new `mailimf_sender` that holds `snd_mb`.
pub fn mailimf_sender_new(snd_mb: mailimf_mailbox) -> (r: mailimf_sender)
    ensures
        r.snd_mb == snd_mb,
{
    mailimf_sender { snd_mb }
}

/// A new `mailimf_reply_to` that holds `rt_addr_list`.
pub fn mailimf_reply_to_new(rt_addr_list: mailimf_address_list) -> (r: mailimf_reply_to)
    ensures
        r.rt_addr_list == rt_addr_list,
{
    mailimf_reply_to { rt_addr_list }
}

/// A new `mailimf_to` that holds `to_addr_list`.
pub fn mailimf_to_new(to_addr_list: mailimf_address_list) -> (r: mailimf_to)
    ensures
        r.to_addr_list == to_addr_list,
{
    mailimf_to { to_addr_list }
}

/// A new `mailimf_cc` that holds `cc_addr_list`.
pub fn mailimf_cc_new(cc_addr_list: mailimf_address_list) -> (r: mailimf_cc)
    ensures
        r.cc_addr_list == cc_addr_list,
{
    mailimf_cc { cc_addr_list }
}

/// A new `mailimf_bcc` that holds `bcc_addr_list`.
pub fn mailimf_bcc_new(bcc_addr_list: Option<mailimf_address_list>) -> (r: mailimf_bcc)
    ensures
        r.bcc_addr_list == bcc_addr_list,
{
    mailimf_bcc { bcc_addr_list }
}

/// A new `mailimf_message_id` that holds `mid_value`.
pub fn mailimf_message_id_new(mid_value: Vec<u8>) -> (r: mailimf_message_id)
    ensures
        r.mid_value == mid_value,
{
    mailimf_message_id { mid_value }
}

/// A new `mailimf_in_reply_to` that holds `mid_list`.
pub fn mailimf_in_reply_to_new(mid_list: Vec<Vec<u8>>) -> (r: mailimf_in_reply_to)
    ensures
        r.mid_list == mid_list,
{
    mailimf_in_reply_to { mid_list }
}

/// A new `mailimf_references` that holds `mid_list`.
pub fn mailimf_references_new(mid_list: Vec<Vec<u8>>) -> (r: mailimf_references)
    ensures
        r.mid_list == mid_list,
{
    mailimf_references { mid_list }
}

/// A new `mailimf_subject` that holds `sbj_value`.
pub fn mailimf_subject_new(sbj_value: Vec<u8>) -> (r: mailimf_subject)
    ensures
        r.sbj_value == sbj_value,
{
    mailimf_subject { sbj_value }
}

/// A new `mailimf_comments` that holds `cm_value`.
pub fn mailimf_comments_new(cm_value: Vec<u8>) -> (r: mailimf_comments)
    ensures
        r.cm_value == cm_value,
{
    mailimf_comments { cm_value }
}

/// A new `mailimf_keywords` that holds `kw_list`.
pub fn mailimf_keywords_new(kw_list: Vec<Vec<u8>>) -> (r: mailimf_keywords)
    ensures
        r.kw_list == kw_list,
{
    mailimf_keywords { kw_list }
}

/// A new `mailimf_return` that holds `ret_path`.
pub fn mailimf_return_new(ret_path: mailimf_path) -> (r: mailimf_return)
    ensures
        r.ret_path == ret_path,
{
    mailimf_return { ret_path }
}

/// A new `mailimf_path` that holds `pt_addr_spec`.
pub fn mailimf_path_new(pt_addr_spec: Option<Vec<u8>>) -> (r: mailimf_path)
    ensures
        r.pt_addr_spec == pt_addr_spec,
{
    mailimf_path { pt_addr_spec }
}

} // verus!
