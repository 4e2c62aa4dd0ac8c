use mmime::mime_fields::{mailmime_content_parse, mailmime_parameter_parse, mailmime_type,
    mailmime_content_charset_get, mailmime_content_param_get, mailmime_extract_boundary};
use mmime::mime_header::{mailmime_field, mailmime_field_parse, mailmime_fields_parse, mailmime_version_parse,
    mailmime_language_parse, mailmime_encoding_parse, guess_field_type, mailmime_transfer_encoding_get};
use mmime::mime_disposition::{mailmime_disposition_parse, mailmime_disposition_parm, mailmime_disposition_guess_type};
use mmime::fields::mailimf_optional_field_new;
use mmime::header::mailimf_fields_parse;
use mmime::MailError;

#[test]
fn content_type_with_parameters() {
    let (c, _) = mailmime_content_parse(b" text/plain; charset=\"utf-8\"; format=flowed", 0).unwrap();
    match &c.ct_type {
        mailmime_type::DiscreteType(d) => assert_eq!(d.dt_type, 1),
        _ => panic!("not discrete"),
    }
    assert_eq!(c.ct_subtype, b"plain".to_vec());
    assert_eq!(c.ct_parameters.len(), 2);
    assert_eq!(mailmime_content_charset_get(&c), b"utf-8".to_vec());
    assert_eq!(mailmime_content_param_get(&c, b"FORMAT"), Some(b"flowed".as_ref()));
    assert_eq!(mailmime_content_param_get(&c, b"none"), None);
}

#[test]
fn content_type_without_subtype_is_unknown() {
    let (c, _) = mailmime_content_parse(b"image", 0).unwrap();
    assert_eq!(c.ct_subtype, b"unknown".to_vec());
    let (c2, _) = mailmime_content_parse(b"x-foo/bar", 0).unwrap();
    match &c2.ct_type {
        mailmime_type::DiscreteType(d) => {
            assert_eq!(d.dt_type, 6);
            assert_eq!(d.dt_extension, Some(b"x-foo".to_vec()));
        }
        _ => panic!("not discrete"),
    }
    assert_eq!(mailmime_content_charset_get(&c2), b"us-ascii".to_vec());
}

#[test]
fn boundary_is_unquoted() {
    let (c, _) = mailmime_content_parse(b"multipart/mixed; boundary=\"\\\"abc\\\"\"", 0).unwrap();
    assert_eq!(mailmime_extract_boundary(&c), Some(b"abc".to_vec()));
    let (p, _) = mailmime_parameter_parse(b"name = value", 0).unwrap();
    assert_eq!(p.pa_name, b"name".to_vec());
    assert_eq!(p.pa_value, b"value".to_vec());
}

#[test]
fn mime_field_kinds() {
    let f = mailimf_optional_field_new(b"content-transfer-encoding".to_vec(), b"Base64".to_vec());
    match mailmime_field_parse(&f).unwrap() {
        mailmime_field::TransferEncoding(m) => assert_eq!(m.enc_type, 5),
        _ => panic!("not an encoding"),
    }
    let v = mailimf_optional_field_new(b"MIME-Version".to_vec(), b"1.0".to_vec());
    match mailmime_field_parse(&v).unwrap() {
        mailmime_field::Version(n) => assert_eq!(n, 65536),
        _ => panic!("not a version"),
    }
    let x = mailimf_optional_field_new(b"X-Other".to_vec(), b"1.0".to_vec());
    assert!(matches!(mailmime_field_parse(&x), Err(MailError::Parse)));
    let near = mailimf_optional_field_new(b"Content-Typo".to_vec(), b"text/plain".to_vec());
    assert!(matches!(mailmime_field_parse(&near), Err(MailError::Parse)));
    assert_eq!(guess_field_type(b"Content-Location"), 8);
    assert_eq!(guess_field_type(b"mime-version"), 5);
    let lower = mailimf_optional_field_new(b"mime-version".to_vec(), b"1.0".to_vec());
    assert!(matches!(mailmime_field_parse(&lower).unwrap(), mailmime_field::Version(65536)));
}

#[test]
fn encoded_content_type_is_decoded() {
    let f = mailimf_optional_field_new(b"Content-Type".to_vec(), b"=?us-ascii?Q?text/html?=".to_vec());
    match mailmime_field_parse(&f).unwrap() {
        mailmime_field::Type(c) => assert_eq!(c.ct_subtype, b"html".to_vec()),
        _ => panic!("not a type"),
    }
}

#[test]
fn mime_fields_of_a_header() {
    let (h, _) = mailimf_fields_parse(b"Subject: x\r\nContent-Transfer-Encoding: 7bit\r\nContent-ID: <a@b>\r\n", 0).unwrap();
    let mf = mailmime_fields_parse(&h).unwrap();
    assert_eq!(mf.fld_list.len(), 2);
    assert_eq!(mailmime_transfer_encoding_get(&mf), 1);
    let (none, _) = mailimf_fields_parse(b"Subject: x\r\n", 0).unwrap();
    assert!(matches!(mailmime_fields_parse(&none), Err(MailError::Parse)));
}

#[test]
fn version_and_language() {
    assert_eq!(mailmime_version_parse(b"1.0", 0).unwrap(), (65536, 3));
    assert_eq!(mailmime_version_parse(b"2 . 3", 0).unwrap().0, 131075);
    let (l, end) = mailmime_language_parse(b"en, fr", 0).unwrap();
    assert_eq!(l.lg_list, vec![b"en".to_vec(), b"fr".to_vec()]);
    assert_eq!(end, 6);
    let (l1, end1) = mailmime_language_parse(b"de", 0).unwrap();
    assert_eq!(l1.lg_list, vec![b"de".to_vec()]);
    assert_eq!(end1, 2);
    assert!(mailmime_language_parse(b",en", 0).is_err());
}

#[test]
fn encodings() {
    assert_eq!(mailmime_encoding_parse(b"QUOTED-PRINTABLE", 0).unwrap().0.enc_type, 4);
    let (m, _) = mailmime_encoding_parse(b"x-uuencode", 0).unwrap();
    assert_eq!(m.enc_type, 6);
    assert_eq!(m.enc_token, Some(b"x-uuencode".to_vec()));
}

#[test]
fn disposition_with_parameters() {
    let (d, _) = mailmime_disposition_parse(b"attachment; filename=\"a b.txt\"; size=120; foo=bar", 0).unwrap();
    assert_eq!(d.dsp_type.dsp_type, 2);
    assert_eq!(d.dsp_parms.len(), 3);
    match &d.dsp_parms[0] {
        mailmime_disposition_parm::Filename(f) => assert_eq!(f, &b"a b.txt".to_vec()),
        _ => panic!("not a filename"),
    }
    match &d.dsp_parms[1] {
        mailmime_disposition_parm::Size(n) => assert_eq!(*n, 120),
        _ => panic!("not a size"),
    }
    match &d.dsp_parms[2] {
        mailmime_disposition_parm::Parameter(p) => assert_eq!(p.pa_name, b"foo".to_vec()),
        _ => panic!("not a parameter"),
    }
    assert_eq!(mailmime_disposition_guess_type(b"Filename", 0), 0);
    assert_eq!(mailmime_disposition_guess_type(b"", 0), 5);
}
