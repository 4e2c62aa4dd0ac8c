//! Sections of a MIME tree: a part is found by a list of numbers, as IMAP
//! numbers the parts of a message.

use vstd::prelude::*;
use crate::MailError;
use crate::mime::{mailmime, MimeBody, MimeView, MimeBodyView, mimes_view, lemma_mime_view, body_view};

verus! {

/// A section: the numbers that lead from the top of a MIME tree to a part.
#[allow(non_camel_case_types)]
pub struct mailmime_section {
    pub sec_list: Vec<u32>,
}

pub fn mailmime_section_new(sec_list: Vec<u32>) -> (s: mailmime_section)
    ensures
        s.sec_list@ == sec_list@,
{
    mailmime_section { sec_list }
}

/// The position in a list of parts that a part number points to: number `n`
/// is the `n`-th part; 0, and numbers beyond what a signed 32-bit position
/// holds, point to the first part.
pub open spec fn spec_nth_index(id: u32) -> int {
    if id == 0 || id >= 2147483649 { 0 } else { id - 1 }
}

/// The part that the numbers `ids[k..]` lead to from `m`. In a multipart
/// part a number picks a part; in a message, it picks a part of the
/// enclosed multipart body, or else must be 1 for the enclosed message.
pub open spec fn spec_section_from(m: MimeView, ids: Seq<u32>, k: int) -> Result<MimeView, MailError>
    decreases ids.len() - k,
{
    if k < 0 || k >= ids.len() {
        Ok(m)
    } else {
        let id = ids[k];
        match m.data {
            MimeBodyView::Multiple(_, _, parts) => {
                let j = spec_nth_index(id);
                if j < parts.len() { spec_section_from(parts[j], ids, k + 1) } else { Err(MailError::Inval) }
            },
            MimeBodyView::Message(_, sub) => match sub {
                Some(sm) => match sm.data {
                    MimeBodyView::Multiple(_, _, parts) => {
                        let j = spec_nth_index(id);
                        if j < parts.len() { spec_section_from(parts[j], ids, k + 1) } else { Err(MailError::Inval) }
                    },
                    _ => if id != 1 { Err(MailError::Inval) } else { spec_section_from(*sm, ids, k + 1) },
                },
                None => Err(MailError::Inval),
            },
            MimeBodyView::Single => Err(MailError::Inval),
        }
    }
}

fn nth_index(id: u32) -> (j: usize)
    ensures
        j == spec_nth_index(id),
{
    if id == 0 || id >= 2147483649 { 0 } else { (id - 1) as usize }
}

fn get_section_list<'a>(mime: &'a mailmime, ids: &[u32], k: usize) -> (r: Result<&'a mailmime, MailError>)
    requires
        k <= ids@.len(),
    ensures
        match (r, spec_section_from(mime@, ids@, k as int)) {
            (Ok(p), Ok(pv)) => p@ == pv,
            (Err(x), Err(y)) => x == y,
            _ => false,
        },
    decreases ids@.len() - k,
{
    proof {
        lemma_mime_view(*mime);
    }
    if k >= ids.len() {
        return Ok(mime);
    }
    let id = ids[k];
    match &mime.mm_data {
        MimeBody::Multiple { mm_mp_list, .. } => {
            let j = nth_index(id);
            if j < mm_mp_list.len() {
                get_section_list(&mm_mp_list[j], ids, k + 1)
            } else {
                Err(MailError::Inval)
            }
        },
        MimeBody::Message { mm_msg_mime, .. } => match mm_msg_mime {
            Some(b) => {
                let sm: &mailmime = &**b;
                proof {
                    lemma_mime_view(*sm);
                }
                match &sm.mm_data {
                    MimeBody::Multiple { mm_mp_list, .. } => {
                        let j = nth_index(id);
                        if j < mm_mp_list.len() {
                            get_section_list(&mm_mp_list[j], ids, k + 1)
                        } else {
                            Err(MailError::Inval)
                        }
                    },
                    _ => if id != 1 {
                        Err(MailError::Inval)
                    } else {
                        get_section_list(sm, ids, k + 1)
                    },
                }
            },
            None => Err(MailError::Inval),
        },
        MimeBody::Single => Err(MailError::Inval),
    }
}

/// The part that a section points to.
pub fn mailmime_get_section<'a>(mime: &'a mailmime, section: &mailmime_section) -> (r: Result<&'a mailmime, MailError>)
    ensures
        match (r, spec_section_from(mime@, section.sec_list@, 0)) {
            (Ok(p), Ok(pv)) => p@ == pv,
            (Err(x), Err(y)) => x == y,
            _ => false,
        },
{
    get_section_list(mime, section.sec_list.as_slice(), 0)
}

/// The numbers of the section of the part that `path[k..]` leads to from
/// `m`, after `acc`. A path picks, in a multipart part, the index of a part,
/// and in a message, 0 for the enclosed message. A part of a multipart part
/// adds its position counted from 1; an enclosed message adds 1, unless its
/// body is multipart, which adds nothing.
pub open spec fn spec_section_id_from(m: MimeView, path: Seq<usize>, k: int, acc: Seq<u32>) -> Result<Seq<u32>, MailError>
    decreases path.len() - k,
{
    if k < 0 || k >= path.len() {
        Ok(acc)
    } else {
        let x = path[k];
        match m.data {
            MimeBodyView::Multiple(_, _, parts) => if x < parts.len() && x + 1 <= u32::MAX {
                spec_section_id_from(parts[x as int], path, k + 1, acc.push((x + 1) as u32))
            } else {
                Err(MailError::Inval)
            },
            MimeBodyView::Message(_, sub) => match sub {
                Some(sm) => if x == 0 {
                    let acc2 = if sm.data is Multiple { acc } else { acc.push(1u32) };
                    spec_section_id_from(*sm, path, k + 1, acc2)
                } else {
                    Err(MailError::Inval)
                },
                None => Err(MailError::Inval),
            },
            MimeBodyView::Single => Err(MailError::Inval),
        }
    }
}

fn section_id_from(mime: &mailmime, path: &[usize], k: usize, acc: &mut Vec<u32>) -> (r: Result<(), MailError>)
    requires
        k <= path@.len(),
    ensures
        match (r, spec_section_id_from(mime@, path@, k as int, old(acc)@)) {
            (Ok(_), Ok(ids)) => final(acc)@ == ids,
            (Err(x), Err(y)) => x == y,
            _ => false,
        },
    decreases path@.len() - k,
{
    proof {
        lemma_mime_view(*mime);
    }
    if k >= path.len() {
        return Ok(());
    }
    let x = path[k];
    match &mime.mm_data {
        MimeBody::Multiple { mm_mp_list, .. } => {
            if x < mm_mp_list.len() && x < 4294967295 {
                acc.push((x + 1) as u32);
                section_id_from(&mm_mp_list[x], path, k + 1, acc)
            } else {
                Err(MailError::Inval)
            }
        },
        MimeBody::Message { mm_msg_mime, .. } => match mm_msg_mime {
            Some(b) => {
                if x != 0 {
                    return Err(MailError::Inval);
                }
                let sm: &mailmime = &**b;
                proof {
                    lemma_mime_view(*sm);
                }
                match &sm.mm_data {
                    MimeBody::Multiple { .. } => {},
                    _ => {
                        acc.push(1);
                    },
                }
                section_id_from(sm, path, k + 1, acc)
            },
            None => Err(MailError::Inval),
        },
        MimeBody::Single => Err(MailError::Inval),
    }
}

/// The section of the part that `path` leads to from the top part `mime`
/// (see `spec_section_id_from`); a path that leads nowhere is refused.
pub fn mailmime_get_section_id(mime: &mailmime, path: &[usize]) -> (r: Result<mailmime_section, MailError>)
    ensures
        match (r, spec_section_id_from(mime@, path@, 0, Seq::empty())) {
            (Ok(s), Ok(ids)) => s.sec_list@ == ids,
            (Err(x), Err(y)) => x == y,
            _ => false,
        },
{
    let mut acc: Vec<u32> = Vec::new();
    section_id_from(mime, path, 0, &mut acc)?;
    Ok(mailmime_section_new(acc))
}

/// The part that `path[k..]` leads to from `m`.
pub open spec fn spec_node_at(m: MimeView, path: Seq<usize>, k: int) -> Option<MimeView>
    decreases path.len() - k,
{
    if k < 0 || k >= path.len() {
        Some(m)
    } else {
        let x = path[k];
        match m.data {
            MimeBodyView::Multiple(_, _, parts) => if x < parts.len() { spec_node_at(parts[x as int], path, k + 1) } else { None },
            MimeBodyView::Message(_, sub) => match sub {
                Some(sm) => if x == 0 { spec_node_at(*sm, path, k + 1) } else { None },
                None => None,
            },
            MimeBodyView::Single => None,
        }
    }
}

/// The part that a section found from a path points to: the part at the end
/// of the path, except that the multipart body of an enclosed message, which
/// has no number of its own, is found as the message.
pub open spec fn spec_section_target(m: MimeView, path: Seq<usize>, k: int) -> Option<MimeView>
    decreases path.len() - k,
{
    if k < 0 || k >= path.len() {
        Some(m)
    } else {
        let x = path[k];
        match m.data {
            MimeBodyView::Multiple(_, _, parts) => if x < parts.len() { spec_section_target(parts[x as int], path, k + 1) } else { None },
            MimeBodyView::Message(_, sub) => match sub {
                Some(sm) => if x == 0 {
                    if k + 1 == path.len() && sm.data is Multiple { Some(m) } else { spec_section_target(*sm, path, k + 1) }
                } else {
                    None
                },
                None => None,
            },
            MimeBodyView::Single => None,
        }
    }
}

proof fn lemma_section_id_prefix(m: MimeView, path: Seq<usize>, k: int, acc: Seq<u32>)
    ensures
        spec_section_id_from(m, path, k, acc) matches Ok(ids) ==> acc.len() <= ids.len() && ids.subrange(0, acc.len() as int) == acc
            && (0 <= k < path.len() && !(m.data is Message && k + 1 == path.len() && (m.data->Message_1 matches Some(sm) && sm.data is Multiple)) ==> acc.len() < ids.len()),
    decreases path.len() - k,
{
    if 0 <= k < path.len() {
        let x = path[k];
        match m.data {
            MimeBodyView::Multiple(_, _, parts) => if x < parts.len() && x + 1 <= u32::MAX {
                lemma_section_id_prefix(parts[x as int], path, k + 1, acc.push((x + 1) as u32));
                if let Ok(ids) = spec_section_id_from(m, path, k, acc) {
                    assert(ids.subrange(0, acc.len() as int) =~= ids.subrange(0, acc.len() + 1 as int).subrange(0, acc.len() as int));
                }
            },
            MimeBodyView::Message(_, sub) => match sub {
                Some(sm) => if x == 0 {
                    let acc2 = if sm.data is Multiple { acc } else { acc.push(1u32) };
                    lemma_section_id_prefix(*sm, path, k + 1, acc2);
                    if let Ok(ids) = spec_section_id_from(m, path, k, acc) {
                        assert(ids.subrange(0, acc.len() as int) =~= ids.subrange(0, acc2.len() as int).subrange(0, acc.len() as int));
                    }
                },
                None => {},
            },
            MimeBodyView::Single => {},
        }
    }
}

/// The section that `mailmime_get_section_id` gives for a path leads
/// `mailmime_get_section` back to the part at the end of the path (for the
/// multipart body of an enclosed message, to the message), as long as the
/// positions on the path are below 2^31.
proof fn lemma_section_round_trip(m: MimeView, path: Seq<usize>, k: int, acc: Seq<u32>)
    requires
        0 <= k,
        forall|j: int| 0 <= j < path.len() ==> path[j] < 2147483648,
        spec_section_id_from(m, path, k, acc) is Ok,
    ensures
        spec_section_from(m, spec_section_id_from(m, path, k, acc)->Ok_0, acc.len() as int) == Ok::<MimeView, MailError>(spec_section_target(m, path, k)->Some_0),
        spec_section_target(m, path, k) is Some,
    decreases path.len() - k,
{
    let ids = spec_section_id_from(m, path, k, acc)->Ok_0;
    lemma_section_id_prefix(m, path, k, acc);
    if k < path.len() {
        let x = path[k];
        match m.data {
            MimeBodyView::Multiple(_, _, parts) => {
                let acc2 = acc.push((x + 1) as u32);
                lemma_section_round_trip(parts[x as int], path, k + 1, acc2);
                lemma_section_id_prefix(parts[x as int], path, k + 1, acc2);
                assert(ids[acc.len() as int] == ids.subrange(0, acc2.len() as int)[acc.len() as int]);
                assert(spec_nth_index((x + 1) as u32) == x);
            },
            MimeBodyView::Message(_, sub) => {
                let sm = sub->Some_0;
                if sm.data is Multiple {
                    lemma_section_id_prefix(*sm, path, k + 1, acc);
                    if k + 1 < path.len() {
                        lemma_section_round_trip(*sm, path, k + 1, acc);
                        let x2 = path[k + 1];
                        let parts = sm.data->Multiple_2;
                        let acc3 = acc.push((x2 + 1) as u32);
                        lemma_section_id_prefix(parts[x2 as int], path, k + 2, acc3);
                        assert(ids[acc.len() as int] == ids.subrange(0, acc3.len() as int)[acc.len() as int]);
                        assert(spec_nth_index((x2 + 1) as u32) == x2);
                    } else {
                        assert(ids == acc);
                    }
                } else {
                    let acc2 = acc.push(1u32);
                    lemma_section_round_trip(*sm, path, k + 1, acc2);
                    lemma_section_id_prefix(*sm, path, k + 1, acc2);
                    assert(ids[acc.len() as int] == ids.subrange(0, acc2.len() as int)[acc.len() as int]);
                }
            },
            MimeBodyView::Single => {},
        }
    }
}


/// The path ends by stepping from a message into its enclosed body, and that
/// body is multipart: such a body has no number of its own.
pub open spec fn spec_ends_in_enclosed_multipart(m: MimeView, path: Seq<usize>, k: int) -> bool
    decreases path.len() - k,
{
    if k < 0 || k >= path.len() {
        false
    } else {
        let x = path[k];
        match m.data {
            MimeBodyView::Multiple(_, _, parts) => x < parts.len() && spec_ends_in_enclosed_multipart(parts[x as int], path, k + 1),
            MimeBodyView::Message(_, sub) => match sub {
                Some(sm) => x == 0 && ((k + 1 == path.len() && sm.data is Multiple)
                    || spec_ends_in_enclosed_multipart(*sm, path, k + 1)),
                None => false,
            },
            MimeBodyView::Single => false,
        }
    }
}

proof fn lemma_section_id_ok(m: MimeView, path: Seq<usize>, k: int, acc: Seq<u32>)
    requires
        0 <= k,
        forall|j: int| 0 <= j < path.len() ==> path[j] < 2147483648,
        spec_node_at(m, path, k) is Some,
    ensures
        spec_section_id_from(m, path, k, acc) is Ok,
    decreases path.len() - k,
{
    if k < path.len() {
        let x = path[k];
        match m.data {
            MimeBodyView::Multiple(_, _, parts) => {
                lemma_section_id_ok(parts[x as int], path, k + 1, acc.push((x + 1) as u32));
            },
            MimeBodyView::Message(_, sub) => {
                let sm = sub->Some_0;
                let acc2 = if sm.data is Multiple { acc } else { acc.push(1u32) };
                lemma_section_id_ok(*sm, path, k + 1, acc2);
            },
            MimeBodyView::Single => {},
        }
    }
}

proof fn lemma_target_is_node(m: MimeView, path: Seq<usize>, k: int)
    requires
        0 <= k,
        path.len() > 0,
        spec_node_at(m, path, k) is Some,
    ensures
        !spec_ends_in_enclosed_multipart(m, path, k) ==> spec_section_target(m, path, k) == spec_node_at(m, path, k),
        spec_ends_in_enclosed_multipart(m, path, k) ==> k < path.len()
            && spec_section_target(m, path, k) == spec_node_at(m, path.drop_last(), k),
    decreases path.len() - k,
{
    if k < path.len() {
        let x = path[k];
        let pre = path.drop_last();
        match m.data {
            MimeBodyView::Multiple(_, _, parts) => {
                lemma_target_is_node(parts[x as int], path, k + 1);
                if k + 1 < path.len() {
                    assert(pre[k] == x);
                }
            },
            MimeBodyView::Message(_, sub) => {
                let sm = sub->Some_0;
                lemma_target_is_node(*sm, path, k + 1);
                if k + 1 < path.len() {
                    assert(pre[k] == x);
                }
            },
            MimeBodyView::Single => {},
        }
    }
}

/// Round trip of sections: for a path that leads from the top part `m` to a
/// part, `mailmime_get_section_id` finds a section, and `mailmime_get_section`
/// with that section finds that part again; only when the path ends in the
/// multipart body of an enclosed message, which has no number of its own, is
/// the message that encloses it found. Positions from 2^31 on are left out:
/// numbers that large point back to the first part.
pub proof fn law_section_round_trip(m: MimeView, path: Seq<usize>)
    requires
        forall|j: int| 0 <= j < path.len() ==> path[j] < 2147483648,
        spec_node_at(m, path, 0) is Some,
    ensures
        spec_section_id_from(m, path, 0, Seq::empty()) is Ok,
        spec_section_from(m, spec_section_id_from(m, path, 0, Seq::empty())->Ok_0, 0)
            == Ok::<MimeView, MailError>(
                if spec_ends_in_enclosed_multipart(m, path, 0) {
                    spec_node_at(m, path.drop_last(), 0)->Some_0
                } else {
                    spec_node_at(m, path, 0)->Some_0
                }),
{
    lemma_section_id_ok(m, path, 0, Seq::empty());
    lemma_section_round_trip(m, path, 0, Seq::empty());
    if path.len() > 0 {
        lemma_target_is_node(m, path, 0);
    }
}

} // verus!
