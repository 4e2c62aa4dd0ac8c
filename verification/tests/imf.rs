use mmime::header::{mailimf_field, mailimf_message_parse, mailimf_fields_parse, mailimf_field_parse,
    mailimf_envelope_fields_parse, guess_header_type, mailimf_ignore_field_parse};
use mmime::fields::{mailimf_optional_field_parse, mailimf_subject_parse, mailimf_resent_bcc_parse,
    mailimf_references_parse, mailimf_keywords_parse};
use mmime::address::{mailimf_address, mailimf_address_list_parse, mailimf_mailbox_parse};
use mmime::date::{mailimf_date_time_parse, mailimf_zone_parse};
use mmime::msgid::mailimf_msg_id_parse;
use mmime::lex::{mailimf_cfws_parse, mailimf_number_parse, mailimf_token_case_insensitive_len_parse};
use mmime::words::{mailimf_quoted_string_parse, mailimf_phrase_parse, mailimf_atom_parse};
use mmime::{MailError, mail_error_code};

const MSG: &[u8] = b"From: John Doe <jdoe@machine.example>\r\nTo: Mary Smith <mary@example.net>, bob@x.org\r\nSubject: Saying Hello\r\nDate: Fri, 21 Nov 1997 09:55:06 -0600\r\nMessage-ID: <1234@local.machine.example>\r\nX-Custom: value here\r\n\r\nThis is a message just to say hello.\r\n";

#[test]
fn message_parse_reads_every_field_and_the_body() {
    let (m, end) = mailimf_message_parse(MSG, 0).unwrap();
    assert_eq!(end, MSG.len());
    let f = &m.msg_fields.fld_list;
    assert_eq!(f.len(), 6);
    let types: Vec<i32> = f.iter().map(|x| x.fld_type()).collect();
    assert_eq!(types, vec![10, 13, 19, 9, 16, 22]);
    assert_eq!(m.msg_body.bd_text, b"This is a message just to say hello.\r\n".to_vec());
    match &f[0] {
        mailimf_field::From(from) => {
            assert_eq!(from.frm_mb_list.mb_list.len(), 1);
            assert_eq!(from.frm_mb_list.mb_list[0].mb_display_name, Some(b"John Doe".to_vec()));
            assert_eq!(from.frm_mb_list.mb_list[0].mb_addr_spec, b"jdoe@machine.example".to_vec());
        }
        _ => panic!("not From"),
    }
    match &f[3] {
        mailimf_field::OrigDate(d) => {
            let t = d.dt_date_time;
            assert_eq!((t.dt_day, t.dt_month, t.dt_year), (21, 11, 1997));
            assert_eq!((t.dt_hour, t.dt_min, t.dt_sec, t.dt_zone), (9, 55, 6, -600));
        }
        _ => panic!("not Date"),
    }
    match &f[4] {
        mailimf_field::MessageId(id) => assert_eq!(id.mid_value, b"1234@local.machine.example".to_vec()),
        _ => panic!("not Message-ID"),
    }
    match &f[5] {
        mailimf_field::OptionalField(o) => {
            assert_eq!(o.fld_name, b"X-Custom".to_vec());
            assert_eq!(o.fld_value, b"value here".to_vec());
        }
        _ => panic!("not optional"),
    }
}

#[test]
fn address_list_with_group() {
    let s = b"a@b.c, Friends: x@y.z, \"Q, R\" <q@r.s>;, d@e.f\r\n";
    let (l, _) = mailimf_address_list_parse(s, 0).unwrap();
    assert_eq!(l.ad_list.len(), 3);
    match &l.ad_list[1] {
        mailimf_address::Group(g) => {
            assert_eq!(g.grp_display_name, b"Friends".to_vec());
            assert_eq!(g.grp_mb_list.mb_list.len(), 2);
            assert_eq!(g.grp_mb_list.mb_list[1].mb_display_name, Some(b"Q, R".to_vec()));
        }
        _ => panic!("not a group"),
    }
}

#[test]
fn mailbox_without_display_name() {
    let (mb, end) = mailimf_mailbox_parse(b"  user@host.example  ", 0).unwrap();
    assert_eq!(mb.mb_display_name, None);
    assert_eq!(mb.mb_addr_spec, b"user@host.example".to_vec());
    assert!(end <= 21);
}

#[test]
fn date_time_and_zones() {
    let (d, _) = mailimf_date_time_parse(b"Tue, 1 Jul 2003 10:52:37 +0200", 0).unwrap();
    assert_eq!((d.dt_day, d.dt_month, d.dt_year, d.dt_hour, d.dt_min, d.dt_sec, d.dt_zone), (1, 7, 2003, 10, 52, 37, 200));
    assert_eq!(mailimf_zone_parse(b"EDT", 0).unwrap().0, -400);
    assert_eq!(mailimf_zone_parse(b"GMT", 0).unwrap().0, 0);
    assert_eq!(mailimf_zone_parse(b"UT", 0).unwrap(), (0, 2));
    assert!(mailimf_date_time_parse(b" 10:20:30 +0000", 0).is_err());
    assert!(mailimf_zone_parse(b"XYZ", 0).is_err());
}

#[test]
fn msg_id_and_references() {
    let (id, _) = mailimf_msg_id_parse(b" <abc@def> ", 0).unwrap();
    assert_eq!(id, b"abc@def".to_vec());
    let (refs, _) = mailimf_references_parse(b"References: <a@b> <c@d>\r\n", 0).unwrap();
    assert_eq!(refs.mid_list, vec![b"a@b".to_vec(), b"c@d".to_vec()]);
}

#[test]
fn subject_and_keywords() {
    let (s, _) = mailimf_subject_parse(b"Subject: Hello world\r\n", 0).unwrap();
    assert_eq!(s.sbj_value, b"Hello world".to_vec());
    let (k, _) = mailimf_keywords_parse(b"Keywords: one, two three\r\n", 0).unwrap();
    assert_eq!(k.kw_list, vec![b"one".to_vec(), b"two three".to_vec()]);
}

#[test]
fn resent_bcc_and_resent_sender_are_read() {
    let (b, e) = mailimf_resent_bcc_parse(b"Resent-Bcc: a@b.c\r\n", 0).unwrap();
    assert_eq!(e, 19);
    assert!(b.bcc_addr_list.is_some());
    let (f, e2) = mailimf_field_parse(b"Resent-Bcc: a@b.c\r\nX-A: b\r\n", 0).unwrap();
    assert_eq!(f.fld_type(), 7);
    assert_eq!(e2, 19);
    let (h, e3) = mailimf_fields_parse(b"Resent-Bcc: a@b\r\n", 0).unwrap();
    assert_eq!(e3, 17);
    assert_eq!(h.fld_list.len(), 1);
    match &h.fld_list[0] {
        mailimf_field::ResentBcc(b) => {
            let l = b.bcc_addr_list.as_ref().unwrap();
            assert_eq!(l.ad_list.len(), 1);
            match &l.ad_list[0] {
                mailimf_address::Mailbox(m) => assert_eq!(m.mb_addr_spec, b"a@b".to_vec()),
                _ => panic!("not a mailbox"),
            }
        }
        _ => panic!("not Resent-Bcc"),
    }
    let (s, e4) = mailimf_field_parse(b"Resent-Sender: a@b\r\n", 0).unwrap();
    assert_eq!(e4, 20);
    match s {
        mailimf_field::ResentSender(snd) => assert_eq!(snd.snd_mb.mb_addr_spec, b"a@b".to_vec()),
        _ => panic!("not Resent-Sender"),
    }
}

#[test]
fn header_type_guess() {
    assert_eq!(guess_header_type(b"From", 0), 10);
    assert_eq!(guess_header_type(b"subject", 0), 19);
    assert_eq!(guess_header_type(b"Resent-Date", 0), 2);
    assert_eq!(guess_header_type(b"Xyz", 0), 0);
}

#[test]
fn unknown_field_is_optional() {
    let (f, _) = mailimf_field_parse(b"X-Mailer: test\r\n", 0).unwrap();
    assert_eq!(f.fld_type(), 22);
    let (o, _) = mailimf_optional_field_parse(b"X-A: b\r\n", 0).unwrap();
    assert_eq!(o.fld_name, b"X-A".to_vec());
}

#[test]
fn envelope_fields_skip_others() {
    let s = b"X-A: b\r\nSubject: s\r\nReceived: from x\r\n\r\n";
    let (f, _) = mailimf_envelope_fields_parse(s, 0).unwrap();
    assert_eq!(f.fld_list.len(), 1);
    assert_eq!(f.fld_list[0].fld_type(), 19);
    let (all, _) = mailimf_fields_parse(s, 0).unwrap();
    assert_eq!(all.fld_list.len(), 3);
    assert_eq!(mailimf_ignore_field_parse(s, 0).unwrap(), 8);
}

#[test]
fn lexical_pieces() {
    assert_eq!(mailimf_cfws_parse(b" (a (nested) comment) x", 0).unwrap(), 21);
    assert_eq!(mailimf_number_parse(b"0042x", 0).unwrap(), (42, 4));
    assert_eq!(mailimf_token_case_insensitive_len_parse(b"FrOm:", 0, b"from").unwrap(), 4);
    assert_eq!(mailimf_quoted_string_parse(b" \"a\\\"b\" ", 0).unwrap().0, b"a\"b".to_vec());
    assert_eq!(mailimf_phrase_parse(b"John  Q. Public <", 0).unwrap().0, b"John Q. Public".to_vec());
    assert_eq!(mailimf_atom_parse(b" atom!#$ rest", 0).unwrap().0, b"atom!#$".to_vec());
    assert!(matches!(mailimf_atom_parse(b"  ", 0), Err(MailError::Parse)));
}

#[test]
fn error_codes() {
    assert_eq!(mail_error_code(MailError::Parse), 1);
    assert_eq!(mail_error_code(MailError::Memory), 2);
    assert_eq!(mail_error_code(MailError::Inval), 3);
    assert_eq!(mail_error_code(MailError::File), 4);
}
