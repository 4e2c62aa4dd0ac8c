//! What the header parser makes of each field name.

use vstd::prelude::*;
use crate::MailError;
use crate::lex::{spec_token_ci, spec_ci_prefix, spec_ci_eq, lemma_ci_prefix_byte};
use crate::chars::spec_to_upper;
use crate::date::up_at;
use crate::fields::{HeaderName, header_name, spec_field_head, spec_addr_field_k, spec_bcc_k, spec_from_k,
    spec_keywords, spec_message_id_k, spec_msg_ids_k, spec_orig_date_k, spec_return, spec_sender_k,
    spec_text_field_k};
use crate::header::{FieldView, spec_field, spec_known_field, spec_guess_header_type, ent_token,
    spec_return_field, spec_resent_date_field, spec_resent_from_field, spec_resent_sender_field, spec_resent_to_field, spec_resent_cc_field, spec_resent_bcc_field, spec_resent_msg_id_field, spec_orig_date_field, spec_from_field, spec_sender_field, spec_reply_to_field, spec_to_field, spec_cc_field, spec_bcc_field, spec_message_id_field, spec_in_reply_to_field, spec_references_field, spec_subject_field, spec_comments_field, spec_keywords_field};
use crate::imf_write::field_name;

verus! {

/// The field name that each field type number stands for.
pub open spec fn field_kind_of(g: i32) -> HeaderName {
    if g == 1 { HeaderName::ReturnPath } else
    if g == 2 { HeaderName::ResentDate } else
    if g == 3 { HeaderName::ResentFrom } else
    if g == 4 { HeaderName::ResentSender } else
    if g == 5 { HeaderName::ResentTo } else
    if g == 6 { HeaderName::ResentCc } else
    if g == 7 { HeaderName::ResentBcc } else
    if g == 8 { HeaderName::ResentMsgId } else
    if g == 9 { HeaderName::OrigDate } else
    if g == 10 { HeaderName::From } else
    if g == 11 { HeaderName::Sender } else
    if g == 12 { HeaderName::ReplyTo } else
    if g == 13 { HeaderName::To } else
    if g == 14 { HeaderName::Cc } else
    if g == 15 { HeaderName::Bcc } else
    if g == 16 { HeaderName::MessageId } else
    if g == 17 { HeaderName::InReplyTo } else
    if g == 18 { HeaderName::References } else
    if g == 19 { HeaderName::Subject } else
    if g == 20 { HeaderName::Comments } else
    if g == 21 { HeaderName::Keywords } else
    { HeaderName::Keywords }
}

proof fn lemma_guess_by_name(s: Seq<u8>, i: int, g: i32)
    requires
        1 <= g <= 21,
        spec_ci_prefix(s, i, header_name(field_kind_of(g))),
    ensures
        spec_guess_header_type(s, i) == g,
{
    let n = header_name(field_kind_of(g));
    lemma_ci_prefix_byte(s, i, n, 0);
    if n.len() > 1 { lemma_ci_prefix_byte(s, i, n, 1); }
    if n.len() > 2 { lemma_ci_prefix_byte(s, i, n, 2); }
    if n.len() > 7 { lemma_ci_prefix_byte(s, i, n, 7); }
    if 2 <= g <= 8 {
        assert forall|m: int| 0 <= m < ent_token().len() implies #[trigger] spec_ci_eq(s[i + 3 + m], ent_token()[m]) by {
            lemma_ci_prefix_byte(s, i, n, 3 + m);
            assert(n[3 + m] == ent_token()[m]);
        }
        assert(spec_ci_prefix(s, i + 3, ent_token()));
    }
}

#[verifier::rlimit(100)]
#[verifier::spinoff_prover]
proof fn lemma_known_1(s: Seq<u8>, i: int)
    ensures
        spec_known_field(s, i, 1i32) == spec_return_field(s, i),
        spec_return_field(s, i) == (match spec_return(s, i) {
            Ok((v, e)) => Ok::<(FieldView, int), MailError>((FieldView::ReturnPath(v), e)),
            Err(x) => Err(x),
        }),
        spec_return(s, i) is Ok ==> spec_field_head(s, i, HeaderName::ReturnPath) is Ok,
        field_kind_of(1i32) == HeaderName::ReturnPath,
{
    reveal(spec_return_field);
}

#[verifier::rlimit(100)]
#[verifier::spinoff_prover]
proof fn lemma_known_2(s: Seq<u8>, i: int)
    ensures
        spec_known_field(s, i, 2i32) == spec_resent_date_field(s, i),
        spec_resent_date_field(s, i) == (match spec_orig_date_k(s, i, HeaderName::ResentDate) {
            Ok((v, e)) => Ok::<(FieldView, int), MailError>((FieldView::ResentDate(v), e)),
            Err(x) => Err(x),
        }),
        spec_orig_date_k(s, i, HeaderName::ResentDate) is Ok ==> spec_field_head(s, i, HeaderName::ResentDate) is Ok,
        field_kind_of(2i32) == HeaderName::ResentDate,
{
    reveal(spec_resent_date_field);
}

#[verifier::rlimit(100)]
#[verifier::spinoff_prover]
proof fn lemma_known_3(s: Seq<u8>, i: int)
    ensures
        spec_known_field(s, i, 3i32) == spec_resent_from_field(s, i),
        spec_resent_from_field(s, i) == (match spec_from_k(s, i, HeaderName::ResentFrom) {
            Ok((v, e)) => Ok::<(FieldView, int), MailError>((FieldView::ResentFrom(v), e)),
            Err(x) => Err(x),
        }),
        spec_from_k(s, i, HeaderName::ResentFrom) is Ok ==> spec_field_head(s, i, HeaderName::ResentFrom) is Ok,
        field_kind_of(3i32) == HeaderName::ResentFrom,
{
    reveal(spec_resent_from_field);
}

#[verifier::rlimit(100)]
#[verifier::spinoff_prover]
proof fn lemma_known_4(s: Seq<u8>, i: int)
    ensures
        spec_known_field(s, i, 4i32) == spec_resent_sender_field(s, i),
        spec_resent_sender_field(s, i) == (match spec_sender_k(s, i, HeaderName::ResentSender) {
            Ok((v, e)) => Ok::<(FieldView, int), MailError>((FieldView::ResentSender(v), e)),
            Err(x) => Err(x),
        }),
        spec_sender_k(s, i, HeaderName::ResentSender) is Ok ==> spec_field_head(s, i, HeaderName::ResentSender) is Ok,
        field_kind_of(4i32) == HeaderName::ResentSender,
{
    reveal(spec_resent_sender_field);
}

#[verifier::rlimit(100)]
#[verifier::spinoff_prover]
proof fn lemma_known_5(s: Seq<u8>, i: int)
    ensures
        spec_known_field(s, i, 5i32) == spec_resent_to_field(s, i),
        spec_resent_to_field(s, i) == (match spec_addr_field_k(s, i, HeaderName::ResentTo) {
            Ok((v, e)) => Ok::<(FieldView, int), MailError>((FieldView::ResentTo(v), e)),
            Err(x) => Err(x),
        }),
        spec_addr_field_k(s, i, HeaderName::ResentTo) is Ok ==> spec_field_head(s, i, HeaderName::ResentTo) is Ok,
        field_kind_of(5i32) == HeaderName::ResentTo,
{
    reveal(spec_resent_to_field);
}

#[verifier::rlimit(100)]
#[verifier::spinoff_prover]
proof fn lemma_known_6(s: Seq<u8>, i: int)
    ensures
        spec_known_field(s, i, 6i32) == spec_resent_cc_field(s, i),
        spec_resent_cc_field(s, i) == (match spec_addr_field_k(s, i, HeaderName::ResentCc) {
            Ok((v, e)) => Ok::<(FieldView, int), MailError>((FieldView::ResentCc(v), e)),
            Err(x) => Err(x),
        }),
        spec_addr_field_k(s, i, HeaderName::ResentCc) is Ok ==> spec_field_head(s, i, HeaderName::ResentCc) is Ok,
        field_kind_of(6i32) == HeaderName::ResentCc,
{
    reveal(spec_resent_cc_field);
}

#[verifier::rlimit(100)]
#[verifier::spinoff_prover]
proof fn lemma_known_7(s: Seq<u8>, i: int)
    ensures
        spec_known_field(s, i, 7i32) == spec_resent_bcc_field(s, i),
        spec_resent_bcc_field(s, i) == (match spec_bcc_k(s, i, HeaderName::ResentBcc) {
            Ok((v, e)) => Ok::<(FieldView, int), MailError>((FieldView::ResentBcc(v), e)),
            Err(x) => Err(x),
        }),
        spec_bcc_k(s, i, HeaderName::ResentBcc) is Ok ==> spec_field_head(s, i, HeaderName::ResentBcc) is Ok,
        field_kind_of(7i32) == HeaderName::ResentBcc,
{
    reveal(spec_resent_bcc_field);
}

#[verifier::rlimit(100)]
#[verifier::spinoff_prover]
proof fn lemma_known_8(s: Seq<u8>, i: int)
    ensures
        spec_known_field(s, i, 8i32) == spec_resent_msg_id_field(s, i),
        spec_resent_msg_id_field(s, i) == (match spec_message_id_k(s, i, HeaderName::ResentMsgId) {
            Ok((v, e)) => Ok::<(FieldView, int), MailError>((FieldView::ResentMsgId(v), e)),
            Err(x) => Err(x),
        }),
        spec_message_id_k(s, i, HeaderName::ResentMsgId) is Ok ==> spec_field_head(s, i, HeaderName::ResentMsgId) is Ok,
        field_kind_of(8i32) == HeaderName::ResentMsgId,
{
    reveal(spec_resent_msg_id_field);
}

#[verifier::rlimit(100)]
#[verifier::spinoff_prover]
proof fn lemma_known_9(s: Seq<u8>, i: int)
    ensures
        spec_known_field(s, i, 9i32) == spec_orig_date_field(s, i),
        spec_orig_date_field(s, i) == (match spec_orig_date_k(s, i, HeaderName::OrigDate) {
            Ok((v, e)) => Ok::<(FieldView, int), MailError>((FieldView::OrigDate(v), e)),
            Err(x) => Err(x),
        }),
        spec_orig_date_k(s, i, HeaderName::OrigDate) is Ok ==> spec_field_head(s, i, HeaderName::OrigDate) is Ok,
        field_kind_of(9i32) == HeaderName::OrigDate,
{
    reveal(spec_orig_date_field);
}

#[verifier::rlimit(100)]
#[verifier::spinoff_prover]
proof fn lemma_known_10(s: Seq<u8>, i: int)
    ensures
        spec_known_field(s, i, 10i32) == spec_from_field(s, i),
        spec_from_field(s, i) == (match spec_from_k(s, i, HeaderName::From) {
            Ok((v, e)) => Ok::<(FieldView, int), MailError>((FieldView::From(v), e)),
            Err(x) => Err(x),
        }),
        spec_from_k(s, i, HeaderName::From) is Ok ==> spec_field_head(s, i, HeaderName::From) is Ok,
        field_kind_of(10i32) == HeaderName::From,
{
    reveal(spec_from_field);
}

#[verifier::rlimit(100)]
#[verifier::spinoff_prover]
proof fn lemma_known_11(s: Seq<u8>, i: int)
    ensures
        spec_known_field(s, i, 11i32) == spec_sender_field(s, i),
        spec_sender_field(s, i) == (match spec_sender_k(s, i, HeaderName::Sender) {
            Ok((v, e)) => Ok::<(FieldView, int), MailError>((FieldView::Sender(v), e)),
            Err(x) => Err(x),
        }),
        spec_sender_k(s, i, HeaderName::Sender) is Ok ==> spec_field_head(s, i, HeaderName::Sender) is Ok,
        field_kind_of(11i32) == HeaderName::Sender,
{
    reveal(spec_sender_field);
}

#[verifier::rlimit(100)]
#[verifier::spinoff_prover]
proof fn lemma_known_12(s: Seq<u8>, i: int)
    ensures
        spec_known_field(s, i, 12i32) == spec_reply_to_field(s, i),
        spec_reply_to_field(s, i) == (match spec_addr_field_k(s, i, HeaderName::ReplyTo) {
            Ok((v, e)) => Ok::<(FieldView, int), MailError>((FieldView::ReplyTo(v), e)),
            Err(x) => Err(x),
        }),
        spec_addr_field_k(s, i, HeaderName::ReplyTo) is Ok ==> spec_field_head(s, i, HeaderName::ReplyTo) is Ok,
        field_kind_of(12i32) == HeaderName::ReplyTo,
{
    reveal(spec_reply_to_field);
}

#[verifier::rlimit(100)]
#[verifier::spinoff_prover]
proof fn lemma_known_13(s: Seq<u8>, i: int)
    ensures
        spec_known_field(s, i, 13i32) == spec_to_field(s, i),
        spec_to_field(s, i) == (match spec_addr_field_k(s, i, HeaderName::To) {
            Ok((v, e)) => Ok::<(FieldView, int), MailError>((FieldView::To(v), e)),
            Err(x) => Err(x),
        }),
        spec_addr_field_k(s, i, HeaderName::To) is Ok ==> spec_field_head(s, i, HeaderName::To) is Ok,
        field_kind_of(13i32) == HeaderName::To,
{
    reveal(spec_to_field);
}

#[verifier::rlimit(100)]
#[verifier::spinoff_prover]
proof fn lemma_known_14(s: Seq<u8>, i: int)
    ensures
        spec_known_field(s, i, 14i32) == spec_cc_field(s, i),
        spec_cc_field(s, i) == (match spec_addr_field_k(s, i, HeaderName::Cc) {
            Ok((v, e)) => Ok::<(FieldView, int), MailError>((FieldView::Cc(v), e)),
            Err(x) => Err(x),
        }),
        spec_addr_field_k(s, i, HeaderName::Cc) is Ok ==> spec_field_head(s, i, HeaderName::Cc) is Ok,
        field_kind_of(14i32) == HeaderName::Cc,
{
    reveal(spec_cc_field);
}

#[verifier::rlimit(100)]
#[verifier::spinoff_prover]
proof fn lemma_known_15(s: Seq<u8>, i: int)
    ensures
        spec_known_field(s, i, 15i32) == spec_bcc_field(s, i),
        spec_bcc_field(s, i) == (match spec_bcc_k(s, i, HeaderName::Bcc) {
            Ok((v, e)) => Ok::<(FieldView, int), MailError>((FieldView::Bcc(v), e)),
            Err(x) => Err(x),
        }),
        spec_bcc_k(s, i, HeaderName::Bcc) is Ok ==> spec_field_head(s, i, HeaderName::Bcc) is Ok,
        field_kind_of(15i32) == HeaderName::Bcc,
{
    reveal(spec_bcc_field);
}

#[verifier::rlimit(100)]
#[verifier::spinoff_prover]
proof fn lemma_known_16(s: Seq<u8>, i: int)
    ensures
        spec_known_field(s, i, 16i32) == spec_message_id_field(s, i),
        spec_message_id_field(s, i) == (match spec_message_id_k(s, i, HeaderName::MessageId) {
            Ok((v, e)) => Ok::<(FieldView, int), MailError>((FieldView::MessageId(v), e)),
            Err(x) => Err(x),
        }),
        spec_message_id_k(s, i, HeaderName::MessageId) is Ok ==> spec_field_head(s, i, HeaderName::MessageId) is Ok,
        field_kind_of(16i32) == HeaderName::MessageId,
{
    reveal(spec_message_id_field);
}

#[verifier::rlimit(100)]
#[verifier::spinoff_prover]
proof fn lemma_known_17(s: Seq<u8>, i: int)
    ensures
        spec_known_field(s, i, 17i32) == spec_in_reply_to_field(s, i),
        spec_in_reply_to_field(s, i) == (match spec_msg_ids_k(s, i, HeaderName::InReplyTo) {
            Ok((v, e)) => Ok::<(FieldView, int), MailError>((FieldView::InReplyTo(v), e)),
            Err(x) => Err(x),
        }),
        spec_msg_ids_k(s, i, HeaderName::InReplyTo) is Ok ==> spec_field_head(s, i, HeaderName::InReplyTo) is Ok,
        field_kind_of(17i32) == HeaderName::InReplyTo,
{
    reveal(spec_in_reply_to_field);
}

#[verifier::rlimit(100)]
#[verifier::spinoff_prover]
proof fn lemma_known_18(s: Seq<u8>, i: int)
    ensures
        spec_known_field(s, i, 18i32) == spec_references_field(s, i),
        spec_references_field(s, i) == (match spec_msg_ids_k(s, i, HeaderName::References) {
            Ok((v, e)) => Ok::<(FieldView, int), MailError>((FieldView::References(v), e)),
            Err(x) => Err(x),
        }),
        spec_msg_ids_k(s, i, HeaderName::References) is Ok ==> spec_field_head(s, i, HeaderName::References) is Ok,
        field_kind_of(18i32) == HeaderName::References,
{
    reveal(spec_references_field);
}

#[verifier::rlimit(100)]
#[verifier::spinoff_prover]
proof fn lemma_known_19(s: Seq<u8>, i: int)
    ensures
        spec_known_field(s, i, 19i32) == spec_subject_field(s, i),
        spec_subject_field(s, i) == (match spec_text_field_k(s, i, HeaderName::Subject) {
            Ok((v, e)) => Ok::<(FieldView, int), MailError>((FieldView::Subject(v), e)),
            Err(x) => Err(x),
        }),
        spec_text_field_k(s, i, HeaderName::Subject) is Ok ==> spec_field_head(s, i, HeaderName::Subject) is Ok,
        field_kind_of(19i32) == HeaderName::Subject,
{
    reveal(spec_subject_field);
}

#[verifier::rlimit(100)]
#[verifier::spinoff_prover]
proof fn lemma_known_20(s: Seq<u8>, i: int)
    ensures
        spec_known_field(s, i, 20i32) == spec_comments_field(s, i),
        spec_comments_field(s, i) == (match spec_text_field_k(s, i, HeaderName::Comments) {
            Ok((v, e)) => Ok::<(FieldView, int), MailError>((FieldView::Comments(v), e)),
            Err(x) => Err(x),
        }),
        spec_text_field_k(s, i, HeaderName::Comments) is Ok ==> spec_field_head(s, i, HeaderName::Comments) is Ok,
        field_kind_of(20i32) == HeaderName::Comments,
{
    reveal(spec_comments_field);
}

#[verifier::rlimit(100)]
#[verifier::spinoff_prover]
proof fn lemma_known_21(s: Seq<u8>, i: int)
    ensures
        spec_known_field(s, i, 21i32) == spec_keywords_field(s, i),
        spec_keywords_field(s, i) == (match spec_keywords(s, i) {
            Ok((v, e)) => Ok::<(FieldView, int), MailError>((FieldView::Keywords(v), e)),
            Err(x) => Err(x),
        }),
        spec_keywords(s, i) is Ok ==> spec_field_head(s, i, HeaderName::Keywords) is Ok,
        field_kind_of(21i32) == HeaderName::Keywords,
{
    reveal(spec_keywords_field);
}

proof fn lemma_read_by_name(s: Seq<u8>, i: int, g: i32)
    requires
        1 <= g <= 21,
        spec_token_ci(s, i, header_name(field_kind_of(g))) is Ok,
        spec_known_field(s, i, g) is Ok,
    ensures
        spec_field(s, i) == spec_known_field(s, i, g),
{
    assert(header_name(field_kind_of(g)).len() > 0);
    lemma_guess_by_name(s, i, g);
}

/// A field that the parser for its type reads is read by the header parser
/// as that type, with what that parser read: a `Cc:` field with an address
/// list is a Cc field carrying that list, a `Date:` field with a date is a
/// Date field, and so on for every field type of RFC 2822.
#[verifier::rlimit(100)]
#[verifier::spinoff_prover]
pub proof fn law_field_read_by_name(s: Seq<u8>, i: int)
    ensures
        spec_return(s, i) matches Ok((v, e))
            ==> spec_field(s, i) == Ok::<(FieldView, int), MailError>((FieldView::ReturnPath(v), e)),
        spec_orig_date_k(s, i, HeaderName::ResentDate) matches Ok((v, e))
            ==> spec_field(s, i) == Ok::<(FieldView, int), MailError>((FieldView::ResentDate(v), e)),
        spec_from_k(s, i, HeaderName::ResentFrom) matches Ok((v, e))
            ==> spec_field(s, i) == Ok::<(FieldView, int), MailError>((FieldView::ResentFrom(v), e)),
        spec_sender_k(s, i, HeaderName::ResentSender) matches Ok((v, e))
            ==> spec_field(s, i) == Ok::<(FieldView, int), MailError>((FieldView::ResentSender(v), e)),
        spec_addr_field_k(s, i, HeaderName::ResentTo) matches Ok((v, e))
            ==> spec_field(s, i) == Ok::<(FieldView, int), MailError>((FieldView::ResentTo(v), e)),
        spec_addr_field_k(s, i, HeaderName::ResentCc) matches Ok((v, e))
            ==> spec_field(s, i) == Ok::<(FieldView, int), MailError>((FieldView::ResentCc(v), e)),
        spec_bcc_k(s, i, HeaderName::ResentBcc) matches Ok((v, e))
            ==> spec_field(s, i) == Ok::<(FieldView, int), MailError>((FieldView::ResentBcc(v), e)),
        spec_message_id_k(s, i, HeaderName::ResentMsgId) matches Ok((v, e))
            ==> spec_field(s, i) == Ok::<(FieldView, int), MailError>((FieldView::ResentMsgId(v), e)),
        spec_orig_date_k(s, i, HeaderName::OrigDate) matches Ok((v, e))
            ==> spec_field(s, i) == Ok::<(FieldView, int), MailError>((FieldView::OrigDate(v), e)),
        spec_from_k(s, i, HeaderName::From) matches Ok((v, e))
            ==> spec_field(s, i) == Ok::<(FieldView, int), MailError>((FieldView::From(v), e)),
        spec_sender_k(s, i, HeaderName::Sender) matches Ok((v, e))
            ==> spec_field(s, i) == Ok::<(FieldView, int), MailError>((FieldView::Sender(v), e)),
        spec_addr_field_k(s, i, HeaderName::ReplyTo) matches Ok((v, e))
            ==> spec_field(s, i) == Ok::<(FieldView, int), MailError>((FieldView::ReplyTo(v), e)),
        spec_addr_field_k(s, i, HeaderName::To) matches Ok((v, e))
            ==> spec_field(s, i) == Ok::<(FieldView, int), MailError>((FieldView::To(v), e)),
        spec_addr_field_k(s, i, HeaderName::Cc) matches Ok((v, e))
            ==> spec_field(s, i) == Ok::<(FieldView, int), MailError>((FieldView::Cc(v), e)),
        spec_bcc_k(s, i, HeaderName::Bcc) matches Ok((v, e))
            ==> spec_field(s, i) == Ok::<(FieldView, int), MailError>((FieldView::Bcc(v), e)),
        spec_message_id_k(s, i, HeaderName::MessageId) matches Ok((v, e))
            ==> spec_field(s, i) == Ok::<(FieldView, int), MailError>((FieldView::MessageId(v), e)),
        spec_msg_ids_k(s, i, HeaderName::InReplyTo) matches Ok((v, e))
            ==> spec_field(s, i) == Ok::<(FieldView, int), MailError>((FieldView::InReplyTo(v), e)),
        spec_msg_ids_k(s, i, HeaderName::References) matches Ok((v, e))
            ==> spec_field(s, i) == Ok::<(FieldView, int), MailError>((FieldView::References(v), e)),
        spec_text_field_k(s, i, HeaderName::Subject) matches Ok((v, e))
            ==> spec_field(s, i) == Ok::<(FieldView, int), MailError>((FieldView::Subject(v), e)),
        spec_text_field_k(s, i, HeaderName::Comments) matches Ok((v, e))
            ==> spec_field(s, i) == Ok::<(FieldView, int), MailError>((FieldView::Comments(v), e)),
        spec_keywords(s, i) matches Ok((v, e))
            ==> spec_field(s, i) == Ok::<(FieldView, int), MailError>((FieldView::Keywords(v), e)),
{
    lemma_known_1(s, i);
    if spec_return(s, i) is Ok {
        assert(spec_field_head(s, i, HeaderName::ReturnPath) is Ok);
        lemma_read_by_name(s, i, 1i32);
    }
    lemma_known_2(s, i);
    if spec_orig_date_k(s, i, HeaderName::ResentDate) is Ok {
        assert(spec_field_head(s, i, HeaderName::ResentDate) is Ok);
        lemma_read_by_name(s, i, 2i32);
    }
    lemma_known_3(s, i);
    if spec_from_k(s, i, HeaderName::ResentFrom) is Ok {
        assert(spec_field_head(s, i, HeaderName::ResentFrom) is Ok);
        lemma_read_by_name(s, i, 3i32);
    }
    lemma_known_4(s, i);
    if spec_sender_k(s, i, HeaderName::ResentSender) is Ok {
        assert(spec_field_head(s, i, HeaderName::ResentSender) is Ok);
        lemma_read_by_name(s, i, 4i32);
    }
    lemma_known_5(s, i);
    if spec_addr_field_k(s, i, HeaderName::ResentTo) is Ok {
        assert(spec_field_head(s, i, HeaderName::ResentTo) is Ok);
        lemma_read_by_name(s, i, 5i32);
    }
    lemma_known_6(s, i);
    if spec_addr_field_k(s, i, HeaderName::ResentCc) is Ok {
        assert(spec_field_head(s, i, HeaderName::ResentCc) is Ok);
        lemma_read_by_name(s, i, 6i32);
    }
    lemma_known_7(s, i);
    if spec_bcc_k(s, i, HeaderName::ResentBcc) is Ok {
        assert(spec_field_head(s, i, HeaderName::ResentBcc) is Ok);
        lemma_read_by_name(s, i, 7i32);
    }
    lemma_known_8(s, i);
    if spec_message_id_k(s, i, HeaderName::ResentMsgId) is Ok {
        assert(spec_field_head(s, i, HeaderName::ResentMsgId) is Ok);
        lemma_read_by_name(s, i, 8i32);
    }
    lemma_known_9(s, i);
    if spec_orig_date_k(s, i, HeaderName::OrigDate) is Ok {
        assert(spec_field_head(s, i, HeaderName::OrigDate) is Ok);
        lemma_read_by_name(s, i, 9i32);
    }
    lemma_known_10(s, i);
    if spec_from_k(s, i, HeaderName::From) is Ok {
        assert(spec_field_head(s, i, HeaderName::From) is Ok);
        lemma_read_by_name(s, i, 10i32);
    }
    lemma_known_11(s, i);
    if spec_sender_k(s, i, HeaderName::Sender) is Ok {
        assert(spec_field_head(s, i, HeaderName::Sender) is Ok);
        lemma_read_by_name(s, i, 11i32);
    }
    lemma_known_12(s, i);
    if spec_addr_field_k(s, i, HeaderName::ReplyTo) is Ok {
        assert(spec_field_head(s, i, HeaderName::ReplyTo) is Ok);
        lemma_read_by_name(s, i, 12i32);
    }
    lemma_known_13(s, i);
    if spec_addr_field_k(s, i, HeaderName::To) is Ok {
        assert(spec_field_head(s, i, HeaderName::To) is Ok);
        lemma_read_by_name(s, i, 13i32);
    }
    lemma_known_14(s, i);
    if spec_addr_field_k(s, i, HeaderName::Cc) is Ok {
        assert(spec_field_head(s, i, HeaderName::Cc) is Ok);
        lemma_read_by_name(s, i, 14i32);
    }
    lemma_known_15(s, i);
    if spec_bcc_k(s, i, HeaderName::Bcc) is Ok {
        assert(spec_field_head(s, i, HeaderName::Bcc) is Ok);
        lemma_read_by_name(s, i, 15i32);
    }
    lemma_known_16(s, i);
    if spec_message_id_k(s, i, HeaderName::MessageId) is Ok {
        assert(spec_field_head(s, i, HeaderName::MessageId) is Ok);
        lemma_read_by_name(s, i, 16i32);
    }
    lemma_known_17(s, i);
    if spec_msg_ids_k(s, i, HeaderName::InReplyTo) is Ok {
        assert(spec_field_head(s, i, HeaderName::InReplyTo) is Ok);
        lemma_read_by_name(s, i, 17i32);
    }
    lemma_known_18(s, i);
    if spec_msg_ids_k(s, i, HeaderName::References) is Ok {
        assert(spec_field_head(s, i, HeaderName::References) is Ok);
        lemma_read_by_name(s, i, 18i32);
    }
    lemma_known_19(s, i);
    if spec_text_field_k(s, i, HeaderName::Subject) is Ok {
        assert(spec_field_head(s, i, HeaderName::Subject) is Ok);
        lemma_read_by_name(s, i, 19i32);
    }
    lemma_known_20(s, i);
    if spec_text_field_k(s, i, HeaderName::Comments) is Ok {
        assert(spec_field_head(s, i, HeaderName::Comments) is Ok);
        lemma_read_by_name(s, i, 20i32);
    }
    lemma_known_21(s, i);
    if spec_keywords(s, i) is Ok {
        assert(spec_field_head(s, i, HeaderName::Keywords) is Ok);
        lemma_read_by_name(s, i, 21i32);
    }
}

#[verifier::rlimit(100)]
#[verifier::spinoff_prover]
proof fn lemma_slim_1(s: Seq<u8>, i: int)
    ensures
        spec_known_field(s, i, 1i32) matches Ok((f, _)) ==> field_name(f) == HeaderName::ReturnPath
            && !(f is OptionalField) && spec_field_head(s, i, HeaderName::ReturnPath) is Ok,
{
    lemma_known_1(s, i);
}

#[verifier::rlimit(100)]
#[verifier::spinoff_prover]
proof fn lemma_slim_2(s: Seq<u8>, i: int)
    ensures
        spec_known_field(s, i, 2i32) matches Ok((f, _)) ==> field_name(f) == HeaderName::ResentDate
            && !(f is OptionalField) && spec_field_head(s, i, HeaderName::ResentDate) is Ok,
{
    lemma_known_2(s, i);
}

#[verifier::rlimit(100)]
#[verifier::spinoff_prover]
proof fn lemma_slim_3(s: Seq<u8>, i: int)
    ensures
        spec_known_field(s, i, 3i32) matches Ok((f, _)) ==> field_name(f) == HeaderName::ResentFrom
            && !(f is OptionalField) && spec_field_head(s, i, HeaderName::ResentFrom) is Ok,
{
    lemma_known_3(s, i);
}

#[verifier::rlimit(100)]
#[verifier::spinoff_prover]
proof fn lemma_slim_4(s: Seq<u8>, i: int)
    ensures
        spec_known_field(s, i, 4i32) matches Ok((f, _)) ==> field_name(f) == HeaderName::ResentSender
            && !(f is OptionalField) && spec_field_head(s, i, HeaderName::ResentSender) is Ok,
{
    lemma_known_4(s, i);
}

#[verifier::rlimit(100)]
#[verifier::spinoff_prover]
proof fn lemma_slim_5(s: Seq<u8>, i: int)
    ensures
        spec_known_field(s, i, 5i32) matches Ok((f, _)) ==> field_name(f) == HeaderName::ResentTo
            && !(f is OptionalField) && spec_field_head(s, i, HeaderName::ResentTo) is Ok,
{
    lemma_known_5(s, i);
}

#[verifier::rlimit(100)]
#[verifier::spinoff_prover]
proof fn lemma_slim_6(s: Seq<u8>, i: int)
    ensures
        spec_known_field(s, i, 6i32) matches Ok((f, _)) ==> field_name(f) == HeaderName::ResentCc
            && !(f is OptionalField) && spec_field_head(s, i, HeaderName::ResentCc) is Ok,
{
    lemma_known_6(s, i);
}

#[verifier::rlimit(100)]
#[verifier::spinoff_prover]
proof fn lemma_slim_7(s: Seq<u8>, i: int)
    ensures
        spec_known_field(s, i, 7i32) matches Ok((f, _)) ==> field_name(f) == HeaderName::ResentBcc
            && !(f is OptionalField) && spec_field_head(s, i, HeaderName::ResentBcc) is Ok,
{
    lemma_known_7(s, i);
}

#[verifier::rlimit(100)]
#[verifier::spinoff_prover]
proof fn lemma_slim_8(s: Seq<u8>, i: int)
    ensures
        spec_known_field(s, i, 8i32) matches Ok((f, _)) ==> field_name(f) == HeaderName::ResentMsgId
            && !(f is OptionalField) && spec_field_head(s, i, HeaderName::ResentMsgId) is Ok,
{
    lemma_known_8(s, i);
}

#[verifier::rlimit(100)]
#[verifier::spinoff_prover]
proof fn lemma_slim_9(s: Seq<u8>, i: int)
    ensures
        spec_known_field(s, i, 9i32) matches Ok((f, _)) ==> field_name(f) == HeaderName::OrigDate
            && !(f is OptionalField) && spec_field_head(s, i, HeaderName::OrigDate) is Ok,
{
    lemma_known_9(s, i);
}

#[verifier::rlimit(100)]
#[verifier::spinoff_prover]
proof fn lemma_slim_10(s: Seq<u8>, i: int)
    ensures
        spec_known_field(s, i, 10i32) matches Ok((f, _)) ==> field_name(f) == HeaderName::From
            && !(f is OptionalField) && spec_field_head(s, i, HeaderName::From) is Ok,
{
    lemma_known_10(s, i);
}

#[verifier::rlimit(100)]
#[verifier::spinoff_prover]
proof fn lemma_slim_11(s: Seq<u8>, i: int)
    ensures
        spec_known_field(s, i, 11i32) matches Ok((f, _)) ==> field_name(f) == HeaderName::Sender
            && !(f is OptionalField) && spec_field_head(s, i, HeaderName::Sender) is Ok,
{
    lemma_known_11(s, i);
}

#[verifier::rlimit(100)]
#[verifier::spinoff_prover]
proof fn lemma_slim_12(s: Seq<u8>, i: int)
    ensures
        spec_known_field(s, i, 12i32) matches Ok((f, _)) ==> field_name(f) == HeaderName::ReplyTo
            && !(f is OptionalField) && spec_field_head(s, i, HeaderName::ReplyTo) is Ok,
{
    lemma_known_12(s, i);
}

#[verifier::rlimit(100)]
#[verifier::spinoff_prover]
proof fn lemma_slim_13(s: Seq<u8>, i: int)
    ensures
        spec_known_field(s, i, 13i32) matches Ok((f, _)) ==> field_name(f) == HeaderName::To
            && !(f is OptionalField) && spec_field_head(s, i, HeaderName::To) is Ok,
{
    lemma_known_13(s, i);
}

#[verifier::rlimit(100)]
#[verifier::spinoff_prover]
proof fn lemma_slim_14(s: Seq<u8>, i: int)
    ensures
        spec_known_field(s, i, 14i32) matches Ok((f, _)) ==> field_name(f) == HeaderName::Cc
            && !(f is OptionalField) && spec_field_head(s, i, HeaderName::Cc) is Ok,
{
    lemma_known_14(s, i);
}

#[verifier::rlimit(100)]
#[verifier::spinoff_prover]
proof fn lemma_slim_15(s: Seq<u8>, i: int)
    ensures
        spec_known_field(s, i, 15i32) matches Ok((f, _)) ==> field_name(f) == HeaderName::Bcc
            && !(f is OptionalField) && spec_field_head(s, i, HeaderName::Bcc) is Ok,
{
    lemma_known_15(s, i);
}

#[verifier::rlimit(100)]
#[verifier::spinoff_prover]
proof fn lemma_slim_16(s: Seq<u8>, i: int)
    ensures
        spec_known_field(s, i, 16i32) matches Ok((f, _)) ==> field_name(f) == HeaderName::MessageId
            && !(f is OptionalField) && spec_field_head(s, i, HeaderName::MessageId) is Ok,
{
    lemma_known_16(s, i);
}

#[verifier::rlimit(100)]
#[verifier::spinoff_prover]
proof fn lemma_slim_17(s: Seq<u8>, i: int)
    ensures
        spec_known_field(s, i, 17i32) matches Ok((f, _)) ==> field_name(f) == HeaderName::InReplyTo
            && !(f is OptionalField) && spec_field_head(s, i, HeaderName::InReplyTo) is Ok,
{
    lemma_known_17(s, i);
}

#[verifier::rlimit(100)]
#[verifier::spinoff_prover]
proof fn lemma_slim_18(s: Seq<u8>, i: int)
    ensures
        spec_known_field(s, i, 18i32) matches Ok((f, _)) ==> field_name(f) == HeaderName::References
            && !(f is OptionalField) && spec_field_head(s, i, HeaderName::References) is Ok,
{
    lemma_known_18(s, i);
}

#[verifier::rlimit(100)]
#[verifier::spinoff_prover]
proof fn lemma_slim_19(s: Seq<u8>, i: int)
    ensures
        spec_known_field(s, i, 19i32) matches Ok((f, _)) ==> field_name(f) == HeaderName::Subject
            && !(f is OptionalField) && spec_field_head(s, i, HeaderName::Subject) is Ok,
{
    lemma_known_19(s, i);
}

#[verifier::rlimit(100)]
#[verifier::spinoff_prover]
proof fn lemma_slim_20(s: Seq<u8>, i: int)
    ensures
        spec_known_field(s, i, 20i32) matches Ok((f, _)) ==> field_name(f) == HeaderName::Comments
            && !(f is OptionalField) && spec_field_head(s, i, HeaderName::Comments) is Ok,
{
    lemma_known_20(s, i);
}

#[verifier::rlimit(100)]
#[verifier::spinoff_prover]
proof fn lemma_slim_21(s: Seq<u8>, i: int)
    ensures
        spec_known_field(s, i, 21i32) matches Ok((f, _)) ==> field_name(f) == HeaderName::Keywords
            && !(f is OptionalField) && spec_field_head(s, i, HeaderName::Keywords) is Ok,
{
    lemma_known_21(s, i);
}

proof fn lemma_typed_name(s: Seq<u8>, i: int, g: i32)
    ensures
        spec_known_field(s, i, g) matches Ok((f, _)) ==> spec_field_head(s, i, field_name(f)) is Ok,
        spec_known_field(s, i, g) matches Ok((f, _)) ==> !(f is OptionalField),
{
    if g == 1i32 { lemma_slim_1(s, i); }
    if g == 2i32 { lemma_slim_2(s, i); }
    if g == 3i32 { lemma_slim_3(s, i); }
    if g == 4i32 { lemma_slim_4(s, i); }
    if g == 5i32 { lemma_slim_5(s, i); }
    if g == 6i32 { lemma_slim_6(s, i); }
    if g == 7i32 { lemma_slim_7(s, i); }
    if g == 8i32 { lemma_slim_8(s, i); }
    if g == 9i32 { lemma_slim_9(s, i); }
    if g == 10i32 { lemma_slim_10(s, i); }
    if g == 11i32 { lemma_slim_11(s, i); }
    if g == 12i32 { lemma_slim_12(s, i); }
    if g == 13i32 { lemma_slim_13(s, i); }
    if g == 14i32 { lemma_slim_14(s, i); }
    if g == 15i32 { lemma_slim_15(s, i); }
    if g == 16i32 { lemma_slim_16(s, i); }
    if g == 17i32 { lemma_slim_17(s, i); }
    if g == 18i32 { lemma_slim_18(s, i); }
    if g == 19i32 { lemma_slim_19(s, i); }
    if g == 20i32 { lemma_slim_20(s, i); }
    if g == 21i32 { lemma_slim_21(s, i); }
}

/// A field that the header parser reads as a typed field (not an optional
/// one) starts with the name of that field type, case aside, and a colon.
pub proof fn law_field_type_matches_name(s: Seq<u8>, i: int)
    ensures
        spec_field(s, i) matches Ok((f, _)) ==> (!(f is OptionalField) ==> spec_field_head(s, i, field_name(f)) is Ok),
{
    lemma_typed_name(s, i, spec_guess_header_type(s, i));
}

} // verus!
