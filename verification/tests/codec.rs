use mmime::codec::{mailmime_base64_body_parse, mailmime_quoted_printable_body_parse, mailmime_part_parse,
    mailmime_part_parse_partial, get_base64_value, hexa_to_char};
use mmime::encoded_word::{mailmime_encoded_phrase_parse, mailmime_encoded_word_parse, mailmime_phrase_join, PhraseWord};
use mmime::charconv::charconv;

#[test]
fn base64_decodes_across_line_breaks() {
    let (v, end) = mailmime_base64_body_parse(b"SGVs\r\nbG8=", 0).unwrap();
    assert_eq!(v, b"Hello".to_vec());
    assert_eq!(end, 10);
    assert_eq!(get_base64_value(b'+'), Some(62));
    assert_eq!(get_base64_value(b'*'), None);
}

#[test]
fn quoted_printable_decodes() {
    let (v, _) = mailmime_quoted_printable_body_parse(b"a=3Db=\r\nc", 0, false).unwrap();
    assert_eq!(v, b"a=bc".to_vec());
    let (h, _) = mailmime_quoted_printable_body_parse(b"a_b=41", 0, true).unwrap();
    assert_eq!(h, b"a bA".to_vec());
    assert_eq!(hexa_to_char(b'f'), 15);
}

#[test]
fn part_parse_dispatches_on_encoding() {
    assert_eq!(mailmime_part_parse(b"QUJD", 0, 5).unwrap().0, b"ABC".to_vec());
    assert_eq!(mailmime_part_parse(b"x=41", 0, 4).unwrap().0, b"xA".to_vec());
    assert_eq!(mailmime_part_parse(b"raw", 1, 1).unwrap(), (b"aw".to_vec(), 3));
    let (v, end) = mailmime_part_parse_partial(b"QUJDRA", 0, 5).unwrap();
    assert_eq!(v, b"ABC".to_vec());
    assert_eq!(end, 4);
}

#[test]
fn encoded_words_are_converted() {
    let (s, _) = mailmime_encoded_phrase_parse(b"us-ascii", b"=?iso-8859-1?Q?caf=E9?= ok", 0, b"utf-8").unwrap();
    assert_eq!(s, "café ok".as_bytes().to_vec());
    let (s2, _) = mailmime_encoded_phrase_parse(b"us-ascii", b"=?utf-8?B?w6k=?= =?utf-8?B?w6k=?=", 0, b"utf-8").unwrap();
    assert_eq!(s2, "éé".as_bytes().to_vec());
    let ((w, _, _), _) = mailmime_encoded_word_parse(b"=?UTF-8?q?a_b?=", 0).unwrap();
    assert_eq!(w.wd_charset, b"UTF-8".to_vec());
    assert_eq!(w.wd_text, b"a b".to_vec());
}

#[test]
fn charconv_decodes_with_the_named_charset() {
    assert_eq!(charconv(b"utf-8", b"iso-8859-1", &[0x63, 0xe9]).unwrap(), "cé".as_bytes().to_vec());
    assert!(charconv(b"utf-8", b"no-such-charset", b"x").is_err());
}

#[test]
fn base64_body_is_read_to_its_end() {
    let s = b"QUJD\r\nRA==  \r\n";
    let (v, e) = mailmime_base64_body_parse(s, 0).unwrap();
    assert_eq!(v, b"ABCD".to_vec());
    assert_eq!(e, s.len());
}

#[test]
fn quoted_printable_leaves_a_final_escaped_cr_unread() {
    let s = b"ab=\r";
    let (v, e) = mailmime_quoted_printable_body_parse(s, 0, false).unwrap();
    assert_eq!(v, b"ab".to_vec());
    assert_eq!(e, 2);
    let t = b"a=41_b\r\n";
    let (w, f) = mailmime_quoted_printable_body_parse(t, 0, true).unwrap();
    assert_eq!(w, b"aA b\r\n".to_vec());
    assert_eq!(f, t.len());
}

#[test]
fn quoted_printable_keeps_a_cut_escape() {
    let (v, e) = mailmime_quoted_printable_body_parse(b"ab=3", 0, false).unwrap();
    assert_eq!(v, b"ab=3".to_vec());
    assert_eq!(e, 4);
    let (w, f) = mailmime_part_parse_partial(b"ab=3", 0, 4).unwrap();
    assert_eq!(w, b"ab".to_vec());
    assert_eq!(f, 2);
}

fn pw(encoded: bool, fws: bool, text: &[u8]) -> PhraseWord {
    PhraseWord { encoded, fws, text: text.to_vec() }
}

#[test]
fn phrase_join_spaces_words_but_not_two_encoded_words() {
    let words = vec![
        pw(true, false, b"caf\xc3\xa9"),
        pw(true, true, b"au"),
        pw(false, true, b"lait"),
        pw(true, true, b"!"),
        pw(false, false, b"x"),
    ];
    assert_eq!(mailmime_phrase_join(&words), b"caf\xc3\xa9au lait !x".to_vec());
    assert_eq!(mailmime_phrase_join(&vec![pw(false, true, b"a")]), b"a".to_vec());
    assert_eq!(mailmime_phrase_join(&Vec::new()), Vec::<u8>::new());
}

#[test]
fn base64_encoded_text_decodes_back() {
    let cases: [(&[u8], &[u8]); 5] = [
        (b"", b""),
        (b"YQ==", b"a"),
        (b"YWI=", b"ab"),
        (b"YWJj", b"abc"),
        (b"aGVsbG8gd29ybGQ=", b"hello world"),
    ];
    for (enc, plain) in cases.iter() {
        let (v, end) = mailmime_base64_body_parse(enc, 0).unwrap();
        assert_eq!(v, plain.to_vec());
        assert_eq!(end, enc.len());
    }
    let (v, _) = mailmime_base64_body_parse(b"/+8=", 0).unwrap();
    assert_eq!(v, vec![0xff, 0xef]);
}

#[test]
fn base64_with_line_breaks_decodes_back() {
    let enc: &[u8] = b"aGVs\r\nbG8g\r\nd29y\nbGQ=\r\n";
    let (v, end) = mailmime_base64_body_parse(enc, 0).unwrap();
    assert_eq!(v, b"hello world".to_vec());
    assert_eq!(end, enc.len());
}
