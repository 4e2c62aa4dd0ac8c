use mmime::imf_write::{mailimf_string_write_driver, mailimf_header_string_write_driver,
    mailimf_quoted_string_write_driver, mailimf_mailbox_list_write_driver,
    mailimf_address_list_write_driver, mailimf_field_write_driver, mailimf_fields_write_driver,
    mailimf_envelope_fields_write_driver};
use mmime::header::{mailimf_field, mailimf_fields_parse};
use mmime::address::{mailimf_mailbox, mailimf_mailbox_list, mailimf_address, mailimf_address_list,
    mailimf_group};
use mmime::fields::{mailimf_optional_field, mailimf_references, mailimf_orig_date, mailimf_bcc};
use mmime::date::mailimf_date_time;
use mmime::MailError;

const HEADER: &[u8] = b"From: John Doe <jdoe@machine.example>\r\nTo: Mary Smith <mary@example.net>, bob@x.org\r\nSubject: Saying Hello\r\nDate: Fri, 21 Nov 1997 09:55:06 -0600\r\nMessage-ID: <1234@local.machine.example>\r\nX-Custom: value here\r\n\r\n";

fn mb(name: Option<&[u8]>, addr: &[u8]) -> mailimf_mailbox {
    mailimf_mailbox { mb_display_name: name.map(|n| n.to_vec()), mb_addr_spec: addr.to_vec() }
}

#[test]
fn string_write_turns_line_breaks_into_crlf() {
    let mut out = Vec::new();
    let mut col = 3;
    mailimf_string_write_driver(&mut out, &mut col, b"a\nb\rc\r\nde");
    assert_eq!(out, b"a\r\nb\r\nc\r\nde".to_vec());
    assert_eq!(col, 2);
}

#[test]
fn string_write_breaks_lines_at_998_bytes() {
    let mut out = Vec::new();
    let mut col = 0;
    let s = vec![b'x'; 1000];
    mailimf_string_write_driver(&mut out, &mut col, &s);
    assert_eq!(out.len(), 1002);
    assert_eq!(&out[998..1000], b"\r\n");
    assert_eq!(col, 2);
}

#[test]
fn string_write_adds_to_the_column() {
    let mut out = b"ab".to_vec();
    let mut col = 10;
    mailimf_string_write_driver(&mut out, &mut col, b"xyz");
    assert_eq!(out, b"abxyz".to_vec());
    assert_eq!(col, 13);
}

#[test]
fn header_string_write_joins_words_with_one_space() {
    let mut out = Vec::new();
    let mut col = 9;
    mailimf_header_string_write_driver(&mut out, &mut col, b"  hello \r\n\t world ");
    assert_eq!(out, b"hello world".to_vec());
    assert_eq!(col, 20);
}

#[test]
fn header_string_write_folds_before_column_72() {
    let mut out = Vec::new();
    let mut col = 60;
    mailimf_header_string_write_driver(&mut out, &mut col, b"short wordthatistoolong");
    assert_eq!(out, b"short\r\n wordthatistoolong".to_vec());
    assert_eq!(col, 18);
}

#[test]
fn quoted_string_write_escapes_quotes_and_backslashes() {
    let mut out = Vec::new();
    let mut col = 0;
    mailimf_quoted_string_write_driver(&mut out, &mut col, b"a\"b\\c");
    assert_eq!(out, b"\"a\\\"b\\\\c\"".to_vec());
    assert_eq!(col, 9);
}

#[test]
fn mailbox_list_write_names_and_addresses() {
    let l = mailimf_mailbox_list { mb_list: vec![mb(Some(b"John Doe"), b"jdoe@x"), mb(None, b"a@b"), mb(Some(b"J. Doe"), b"j@d")] };
    let mut out = Vec::new();
    let mut col = 6;
    assert!(mailimf_mailbox_list_write_driver(&mut out, &mut col, &l).is_ok());
    assert_eq!(out, b"John Doe <jdoe@x>, a@b, \"J. Doe\" <j@d>".to_vec());
}

#[test]
fn mailbox_with_too_long_quoted_name_is_refused() {
    let long = vec![b'.'; 500];
    let l = mailimf_mailbox_list { mb_list: vec![mb(Some(&long), b"a@b")] };
    let mut out = Vec::new();
    let mut col = 0;
    assert!(matches!(mailimf_mailbox_list_write_driver(&mut out, &mut col, &l), Err(MailError::Inval)));
}

#[test]
fn address_list_write_with_group() {
    let g = mailimf_group { grp_display_name: b"Friends".to_vec(), grp_mb_list: mailimf_mailbox_list { mb_list: vec![mb(None, b"x@y.z"), mb(None, b"q@r.s")] } };
    let l = mailimf_address_list { ad_list: vec![mailimf_address::Mailbox(mb(None, b"a@b.c")), mailimf_address::Group(g)] };
    let mut out = Vec::new();
    let mut col = 4;
    assert!(mailimf_address_list_write_driver(&mut out, &mut col, &l).is_ok());
    assert_eq!(out, b"a@b.c, Friends: x@y.z, q@r.s;".to_vec());
    assert_eq!(col, 4 + 29);
}

#[test]
fn fields_write_gives_back_a_plain_header() {
    let (f, _) = mailimf_fields_parse(HEADER, 0).unwrap();
    let mut out = Vec::new();
    let mut col = 0;
    assert!(mailimf_fields_write_driver(&mut out, &mut col, &f).is_ok());
    assert_eq!(out, HEADER[..HEADER.len() - 2].to_vec());
    assert_eq!(col, 0);
}

#[test]
fn envelope_fields_write_leaves_out_optional_fields() {
    let (f, _) = mailimf_fields_parse(HEADER, 0).unwrap();
    let mut out = Vec::new();
    let mut col = 0;
    assert!(mailimf_envelope_fields_write_driver(&mut out, &mut col, &f).is_ok());
    let text = String::from_utf8(out).unwrap();
    assert!(text.ends_with("Message-ID: <1234@local.machine.example>\r\n"));
    assert!(!text.contains("X-Custom"));
}

#[test]
fn date_field_write_names_the_day() {
    let d = mailimf_date_time { dt_day: 1, dt_month: 1, dt_year: 2000, dt_hour: 0, dt_min: 5, dt_sec: 9, dt_zone: 100 };
    let f = mailimf_field::OrigDate(mailimf_orig_date { dt_date_time: d });
    let mut out = Vec::new();
    let mut col = 0;
    assert!(mailimf_field_write_driver(&mut out, &mut col, &f).is_ok());
    assert_eq!(out, b"Date: Sat, 1 Jan 2000 00:05:09 +0100\r\n".to_vec());
}

#[test]
fn optional_field_with_too_long_name_is_refused() {
    let f = mailimf_field::OptionalField(mailimf_optional_field { fld_name: vec![b'X'; 997], fld_value: b"v".to_vec() });
    let mut out = Vec::new();
    let mut col = 0;
    assert!(matches!(mailimf_field_write_driver(&mut out, &mut col, &f), Err(MailError::Inval)));
    assert!(out.is_empty());
}

#[test]
fn references_write_folds_long_lists() {
    let ids: Vec<Vec<u8>> = (0..4).map(|i| format!("{}-identifier-that-is-rather-long@example.org", i).into_bytes()).collect();
    let f = mailimf_field::References(mailimf_references { mid_list: ids });
    let mut out = Vec::new();
    let mut col = 0;
    assert!(mailimf_field_write_driver(&mut out, &mut col, &f).is_ok());
    let text = String::from_utf8(out).unwrap();
    assert!(text.starts_with("References: <0-identifier-that-is-rather-long@example.org>\r\n <1-"));
    assert!(text.ends_with(">\r\n"));
}

#[test]
fn bcc_without_list_is_empty() {
    let f = mailimf_field::Bcc(mailimf_bcc { bcc_addr_list: None });
    let mut out = Vec::new();
    let mut col = 0;
    assert!(mailimf_field_write_driver(&mut out, &mut col, &f).is_ok());
    assert_eq!(out, b"Bcc: \r\n".to_vec());
}

fn strip(b: &[u8]) -> Vec<u8> {
    b.iter().copied().filter(|c| !matches!(c, b' ' | b'\t' | b'\r' | b'\n')).collect()
}

#[test]
fn header_string_write_folding_keeps_the_text() {
    let value: Vec<u8> = (0..40).flat_map(|i| format!("word{} ", i).into_bytes()).collect();
    let mut out = Vec::new();
    let mut col = 9;
    mailimf_header_string_write_driver(&mut out, &mut col, &value);
    assert_eq!(strip(&out), strip(&value));
    assert!(out.windows(3).any(|w| w == b"\r\n "));
    for line in out.split(|&c| c == b'\n') {
        assert!(line.len() <= 80);
    }
}

#[test]
fn optional_field_written_then_read_back() {
    let f = mailimf_field::OptionalField(mailimf_optional_field { fld_name: b"X-Test".to_vec(), fld_value: b"hello big world".to_vec() });
    let mut out = Vec::new();
    let mut col = 0;
    assert!(mailimf_field_write_driver(&mut out, &mut col, &f).is_ok());
    assert_eq!(out, b"X-Test: hello big world\r\n".to_vec());
    let (o, end) = mmime::fields::mailimf_optional_field_parse(&out, 0).unwrap();
    assert_eq!(o.fld_name, b"X-Test".to_vec());
    assert_eq!(o.fld_value, b"hello big world".to_vec());
    assert_eq!(end, out.len());
}

#[test]
fn subject_written_then_read_back() {
    let f = mailimf_field::Subject(mmime::fields::mailimf_subject { sbj_value: b"Saying Hello again".to_vec() });
    let mut out = Vec::new();
    let mut col = 0;
    assert!(mailimf_field_write_driver(&mut out, &mut col, &f).is_ok());
    assert_eq!(out, b"Subject: Saying Hello again\r\n".to_vec());
    let (s, end) = mmime::fields::mailimf_subject_parse(&out, 0).unwrap();
    assert_eq!(s.sbj_value, b"Saying Hello again".to_vec());
    assert_eq!(end, out.len());
}

#[test]
fn quoted_string_written_then_read_back() {
    let text: &[u8] = b"say \"hi\" to a\\b ";
    let mut out = Vec::new();
    let mut col = 0;
    mailimf_quoted_string_write_driver(&mut out, &mut col, text);
    let (back, end) = mmime::words::mailimf_quoted_string_parse(&out, 0).unwrap();
    assert_eq!(back, text.to_vec());
    assert_eq!(end, out.len());
}

#[test]
fn date_written_then_read_back() {
    let dates = [
        mailimf_date_time { dt_day: 21, dt_month: 11, dt_year: 1997, dt_hour: 9, dt_min: 55, dt_sec: 6, dt_zone: -600 },
        mailimf_date_time { dt_day: 1, dt_month: 1, dt_year: 2000, dt_hour: 0, dt_min: 5, dt_sec: 9, dt_zone: 100 },
        mailimf_date_time { dt_day: 29, dt_month: 2, dt_year: 2024, dt_hour: 23, dt_min: 59, dt_sec: 59, dt_zone: 0 },
    ];
    for d in dates.iter() {
        let f = mailimf_field::OrigDate(mailimf_orig_date { dt_date_time: *d });
        let mut out = Vec::new();
        let mut col = 0;
        assert!(mailimf_field_write_driver(&mut out, &mut col, &f).is_ok());
        let text = &out[6..out.len() - 2];
        let (back, end) = mmime::date::mailimf_date_time_parse(text, 0).unwrap();
        assert_eq!(back, *d);
        assert_eq!(end, text.len());
    }
}
