use mmime::mime::{mailmime, MimeBody, MAILMIME_SINGLE, MAILMIME_MULTIPLE, MAILMIME_MESSAGE};
use mmime::mime_parse::{mailmime_parse, mailmime_parse_with_default, mailmime_multipart_body_parse};
use mmime::mime_fields::mailmime_type;
use mmime::mime_section::{mailmime_get_section, mailmime_get_section_id, mailmime_section_new};
use mmime::MailError;

const MULTIPART: &[u8] = b"From: a@b.c\r\nMIME-Version: 1.0\r\nContent-Type: multipart/mixed; boundary=frontier\r\n\r\nThis is a preamble.\r\n--frontier\r\nContent-Type: text/plain\r\n\r\nThis is the body.\r\n--frontier\r\nContent-Type: application/octet-stream\r\nContent-Transfer-Encoding: base64\r\n\r\nPGh0bWw+\r\n--frontier--\r\n\r\n\r\nThe epilogue.\r\n";

fn enclosed(m: &mailmime) -> &mailmime {
    match &m.mm_data {
        MimeBody::Message { mm_msg_mime: Some(b), .. } => b,
        _ => panic!("not a message"),
    }
}

fn parts(m: &mailmime) -> &Vec<mailmime> {
    match &m.mm_data {
        MimeBody::Multiple { mm_mp_list, .. } => mm_mp_list,
        _ => panic!("not multipart"),
    }
}

#[test]
fn mailmime_parse_test() {
    let data = "MIME-Version: 1.0\
                Content-Type: multipart/mixed; boundary=frontier\
                \
                This is a message with multiple parts in MIME format.\
                --frontier\
                Content-Type: text/plain\
                \
                This is the body of the message.\
                --frontier\
                Content-Type: application/octet-stream\
                Content-Transfer-Encoding: base64\
                \
                PGh0bWw+CiAgPGhlYWQ+CiAgPC9oZWFkPgogIDxib2R5PgogICAgPHA+VGhpcyBpcyB0aGUg\
                Ym9keSBvZiB0aGUgbWVzc2FnZS48L3A+CiAgPC9ib2R5Pgo8L2h0bWw+Cg==\
                --frontier--";
    let res = mailmime_parse(data.as_bytes(), 0);
    assert!(res.is_ok());
    let (mime, end) = res.unwrap();
    assert_eq!(end, data.len());
    assert_eq!(mime.mm_type(), MAILMIME_MESSAGE);
}

#[test]
fn multipart_message_structure() {
    let (top, end) = mailmime_parse(MULTIPART, 0).unwrap();
    assert_eq!(end, MULTIPART.len());
    assert_eq!(top.mm_type(), MAILMIME_MESSAGE);
    let msg = enclosed(&top);
    assert_eq!(msg.mm_type(), MAILMIME_MULTIPLE);
    assert_eq!(msg.mm_content_type.ct_subtype, b"mixed".to_vec());
    let ps = parts(msg);
    assert_eq!(ps.len(), 2);
    assert_eq!(ps[0].mm_type(), MAILMIME_SINGLE);
    assert_eq!(ps[0].mm_content_type.ct_subtype, b"plain".to_vec());
    assert_eq!(ps[0].mm_body.dt_data, b"This is the body.".to_vec());
    assert_eq!(ps[1].mm_content_type.ct_subtype, b"octet-stream".to_vec());
    assert_eq!(ps[1].mm_body.dt_encoding, 5);
    assert_eq!(ps[1].mm_body.dt_data, b"PGh0bWw+".to_vec());
    match &msg.mm_data {
        MimeBody::Multiple { mm_preamble, mm_epilogue, .. } => {
            assert_eq!(mm_preamble.as_ref().unwrap().dt_data, b"This is a preamble.".to_vec());
            assert_eq!(mm_epilogue.as_ref().unwrap().dt_data, b"The epilogue.\r\n".to_vec());
        }
        _ => panic!("not multipart"),
    }
}

#[test]
fn enclosed_message_header_keeps_non_mime_fields() {
    let (top, _) = mailmime_parse(MULTIPART, 0).unwrap();
    match &top.mm_data {
        MimeBody::Message { mm_fields: Some(f), .. } => {
            assert_eq!(f.fld_list.len(), 1);
            assert_eq!(f.fld_list[0].fld_type(), 10);
        }
        _ => panic!("no header"),
    }
    let msg = enclosed(&top);
    let mf = msg.mm_mime_fields.as_ref().unwrap();
    assert_eq!(mf.fld_list.len(), 1);
    assert_eq!(mf.fld_list[0].fld_type(), 5);
}

#[test]
fn section_round_trip_on_a_part() {
    let (top, _) = mailmime_parse(MULTIPART, 0).unwrap();
    let sec = mailmime_get_section_id(&top, &[0, 1]).unwrap();
    assert_eq!(sec.sec_list, vec![2u32]);
    let p = mailmime_get_section(&top, &sec).unwrap();
    assert_eq!(p.mm_body.dt_data, b"PGh0bWw+".to_vec());
}

#[test]
fn section_of_the_multipart_body_is_the_message() {
    let (top, _) = mailmime_parse(MULTIPART, 0).unwrap();
    let sec = mailmime_get_section_id(&top, &[0]).unwrap();
    assert!(sec.sec_list.is_empty());
    let p = mailmime_get_section(&top, &sec).unwrap();
    assert_eq!(p.mm_type(), MAILMIME_MESSAGE);
}

#[test]
fn section_numbers_out_of_range() {
    let (top, _) = mailmime_parse(MULTIPART, 0).unwrap();
    let sec = mailmime_section_new(vec![3]);
    assert!(matches!(mailmime_get_section(&top, &sec), Err(MailError::Inval)));
    let zero = mailmime_section_new(vec![0]);
    let p = mailmime_get_section(&top, &zero).unwrap();
    assert_eq!(p.mm_body.dt_data, b"This is the body.".to_vec());
    assert!(matches!(mailmime_get_section_id(&top, &[1]), Err(MailError::Inval)));
}

#[test]
fn message_without_header_is_text() {
    let (top, _) = mailmime_parse(b"just text", 0).unwrap();
    let msg = enclosed(&top);
    assert_eq!(msg.mm_type(), MAILMIME_SINGLE);
    assert_eq!(msg.mm_content_type.ct_subtype, b"plain".to_vec());
    assert_eq!(msg.mm_body.dt_data, b"just text".to_vec());
}

#[test]
fn quoted_printable_message_is_single() {
    let m = b"Content-Type: message/rfc822\r\nContent-Transfer-Encoding: quoted-printable\r\n\r\nSubject: x\r\n\r\nbody";
    let (top, _) = mailmime_parse(m, 0).unwrap();
    let msg = enclosed(&top);
    assert_eq!(msg.mm_type(), MAILMIME_SINGLE);
    assert_eq!(msg.mm_body.dt_encoding, 4);
}

#[test]
fn digest_parts_default_to_messages() {
    let m = b"Content-Type: multipart/digest; boundary=\"b\"\r\n\r\n--b\r\n\r\nSubject: one\r\n\r\nfirst\r\n--b--\r\n";
    let (top, _) = mailmime_parse(m, 0).unwrap();
    let msg = enclosed(&top);
    let ps = parts(msg);
    assert_eq!(ps.len(), 1);
    assert_eq!(ps[0].mm_type(), MAILMIME_MESSAGE);
    let inner = enclosed(&ps[0]);
    assert_eq!(inner.mm_body.dt_data, b"first".to_vec());
}

#[test]
fn multipart_without_delimiter_has_no_parts() {
    let r = mailmime_multipart_body_parse(b"no delimiter here", 0, b"b", 0);
    assert!(r.is_ok());
    let (list, pre, epi) = r.unwrap();
    assert_eq!(list.len(), 1);
    assert!(pre.is_none());
    assert!(epi.is_none());
}

#[test]
fn parse_with_default_message_type() {
    let (m, end) = mailmime_parse_with_default(b"Subject: hi\r\n\r\nbody", 0, 1, None, None).unwrap();
    assert_eq!(end, 19);
    assert_eq!(m.mm_type(), MAILMIME_MESSAGE);
    match &m.mm_content_type.ct_type {
        mailmime_type::CompositeType(c) => assert_eq!(c.ct_type, 1),
        _ => panic!("not composite"),
    }
}
