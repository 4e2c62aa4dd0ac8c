use mmime::header::{mailimf_field, mailimf_field_new, mailimf_fields_new_empty, mailimf_fields_add,
    mailimf_field_new_custom};
use mmime::fields::{mailimf_subject_new, mailimf_path_new, mailimf_return_new};
use mmime::address::{mailimf_address, mailimf_address_new, mailimf_mailbox_new};
use mmime::mime_fields::{mailmime_type, mailmime_type_new, mailmime_discrete_type_new};
use mmime::mime_header::{mailmime_field, mailmime_field_new};
use mmime::mime_disposition::{mailmime_disposition_parm, mailmime_disposition_parm_new};

#[test]
fn field_new_takes_the_argument_of_its_type() {
    let f = mailimf_field_new(19, None, None, None, None, None, None, None, None, None, None, None, None,
        None, None, None, None, None, None, Some(mailimf_subject_new(b"Hi".to_vec())), None, None, None);
    match f {
        Some(mailimf_field::Subject(s)) => assert_eq!(s.sbj_value, b"Hi".to_vec()),
        _ => panic!("not a subject"),
    }
    let none = mailimf_field_new(19, None, None, None, None, None, None, None, None, None, None, None, None,
        None, None, None, None, None, None, None, None, None, None);
    assert!(none.is_none());
    let r = mailimf_field_new(1, Some(mailimf_return_new(mailimf_path_new(None))), None, None, None, None, None,
        None, None, None, None, None, None, None, None, None, None, None, None, None, None, None, None);
    assert_eq!(r.unwrap().fld_type(), 1);
}

#[test]
fn fields_add_appends() {
    let mut f = mailimf_fields_new_empty();
    assert!(f.fld_list.is_empty());
    assert!(mailimf_fields_add(&mut f, mailimf_field_new_custom(b"X-A".to_vec(), b"1".to_vec())).is_ok());
    assert!(mailimf_fields_add(&mut f, mailimf_field_new_custom(b"X-B".to_vec(), b"2".to_vec())).is_ok());
    assert_eq!(f.fld_list.len(), 2);
    match &f.fld_list[1] {
        mailimf_field::OptionalField(o) => assert_eq!(o.fld_name, b"X-B".to_vec()),
        _ => panic!("not optional"),
    }
}

#[test]
fn tagged_constructors_pick_their_variant() {
    let a = mailimf_address_new(1, Some(mailimf_mailbox_new(None, b"a@b".to_vec())), None);
    assert!(matches!(a, Some(mailimf_address::Mailbox(_))));
    assert!(mailimf_address_new(2, Some(mailimf_mailbox_new(None, b"a@b".to_vec())), None).is_none());
    let t = mailmime_type_new(1, Some(mailmime_discrete_type_new(1, None)), None);
    assert!(matches!(t, Some(mailmime_type::DiscreteType(_))));
    assert!(mailmime_type_new(3, None, None).is_none());
    assert!(matches!(mailmime_field_new(5, None, None, None, None, 1, None, None, None), Some(mailmime_field::Version(1))));
    assert!(mailmime_field_new(3, None, None, None, None, 1, None, None, None).is_none());
    assert!(matches!(mailmime_disposition_parm_new(4, None, None, None, None, 42, None), Some(mailmime_disposition_parm::Size(42))));
    assert!(mailmime_disposition_parm_new(0, None, None, None, None, 0, None).is_none());
}
