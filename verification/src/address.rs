//! Addresses of RFC 2822: addr-spec, mailboxes, groups and their lists.

use vstd::prelude::*;
use crate::MailError;
use crate::res_view;
use crate::lex::{spec_skip_cfws, spec_unstrict_char, skip_cfws, lemma_cfws,
    mailimf_unstrict_char_parse};
use crate::words::{spec_phrase, mailimf_phrase_parse};

verus! {

/// Which bytes end an addr-spec.
#[derive(PartialEq, Eq, Structural, Clone, Copy, Debug)]
pub enum AddrEnd {
    /// `>`, `,`, CR, LF, `(`, `)`, `:` or `;`: an address in a header.
    Address,
    /// `>`, CR or LF: the inside of a message id.
    MsgId,
}

pub open spec fn spec_is_addr_end(k: AddrEnd, c: u8) -> bool {
    match k {
        AddrEnd::Address => c == 62 || c == 44 || c == 13 || c == 10 || c == 40 || c == 41
            || c == 58 || c == 59,
        AddrEnd::MsgId => c == 62 || c == 13 || c == 10,
    }
}

fn is_addr_end(k: AddrEnd, c: u8) -> (r: bool)
    ensures
        r == spec_is_addr_end(k, c),
{
    match k {
        AddrEnd::Address => c == 62 || c == 44 || c == 13 || c == 10 || c == 40 || c == 41
            || c == 58 || c == 59,
        AddrEnd::MsgId => c == 62 || c == 13 || c == 10,
    }
}

/// The first position at or after `p` that ends an addr-spec, or the end of input.
pub open spec fn spec_addr_end(s: Seq<u8>, p: int, k: AddrEnd) -> int
    decreases s.len() - p,
{
    if 0 <= p < s.len() && !spec_is_addr_end(k, s[p]) {
        spec_addr_end(s, p + 1, k)
    } else {
        p
    }
}

proof fn lemma_addr_end(s: Seq<u8>, p: int, k: AddrEnd)
    requires
        0 <= p <= s.len(),
    ensures
        p <= spec_addr_end(s, p, k) <= s.len(),
    decreases s.len() - p,
{
    if 0 <= p < s.len() && !spec_is_addr_end(k, s[p]) {
        lemma_addr_end(s, p + 1, k);
    }
}

/// The bytes of `x` without its spaces and tabs.
pub open spec fn spec_strip_wsp(x: Seq<u8>) -> Seq<u8>
    decreases x.len(),
{
    if x.len() == 0 {
        Seq::empty()
    } else {
        let p = spec_strip_wsp(x.drop_last());
        if x.last() == 32 || x.last() == 9 {
            p
        } else {
            p.push(x.last())
        }
    }
}

/// An addr-spec as the parser reads it: after optional CFWS, the bytes up to
/// an end byte, with spaces and tabs taken out.
pub open spec fn spec_addr_spec_k(s: Seq<u8>, i: int, k: AddrEnd) -> Result<(Seq<u8>, int), MailError> {
    let b = spec_skip_cfws(s, i);
    let e = spec_addr_end(s, b, k);
    if e > b {
        Ok((spec_strip_wsp(s.subrange(b, e)), e))
    } else {
        Err(MailError::Parse)
    }
}

fn addr_spec_k(message: &[u8], indx: usize, k: AddrEnd) -> (r: Result<(Vec<u8>, usize), MailError>)
    requires
        indx <= message@.len(),
    ensures
        res_view(r) == spec_addr_spec_k(message@, indx as int, k),
        r matches Ok((_, j)) ==> indx < j <= message@.len(),
{
    let b = skip_cfws(message, indx);
    proof {
        lemma_addr_end(message@, b as int, k);
    }
    let mut e: usize = b;
    let mut out: Vec<u8> = Vec::new();
    while e < message.len() && !is_addr_end(k, message[e])
        invariant
            b <= e <= message@.len(),
            spec_addr_end(message@, b as int, k) == spec_addr_end(message@, e as int, k),
            out@ == spec_strip_wsp(message@.subrange(b as int, e as int)),
        decreases message@.len() - e,
    {
        let c = message[e];
        if c != 32 && c != 9 {
            out.push(c);
        }
        proof {
            let x = message@.subrange(b as int, e + 1);
            assert(x.drop_last() =~= message@.subrange(b as int, e as int));
            assert(x.last() == c);
        }
        e = e + 1;
    }
    if e == b {
        return Err(MailError::Parse);
    }
    Ok((out, e))
}

/// addr-spec, as it stands in an address.
pub fn mailimf_addr_spec_parse(message: &[u8], indx: usize) -> (r: Result<(Vec<u8>, usize), MailError>)
    requires
        indx <= message@.len(),
    ensures
        res_view(r) == spec_addr_spec_k(message@, indx as int, AddrEnd::Address),
        r matches Ok((_, j)) ==> indx < j <= message@.len(),
{
    addr_spec_k(message, indx, AddrEnd::Address)
}

/// addr-spec, as it stands in a message id.
pub fn mailimf_addr_spec_msg_id_parse(message: &[u8], indx: usize) -> (r: Result<(Vec<u8>, usize), MailError>)
    requires
        indx <= message@.len(),
    ensures
        res_view(r) == spec_addr_spec_k(message@, indx as int, AddrEnd::MsgId),
        r matches Ok((_, j)) ==> indx < j <= message@.len(),
{
    addr_spec_k(message, indx, AddrEnd::MsgId)
}

/// angle-addr: `<` addr-spec `>`, with optional CFWS around.
pub open spec fn spec_angle_addr(s: Seq<u8>, i: int) -> Result<(Seq<u8>, int), MailError> {
    match spec_unstrict_char(s, spec_skip_cfws(s, i), 60) {
        Err(x) => Err(x),
        Ok(j) => match spec_addr_spec_k(s, j, AddrEnd::Address) {
            Err(x) => Err(x),
            Ok((a, k)) => match spec_unstrict_char(s, k, 62) {
                Err(x) => Err(x),
                Ok(e) => Ok((a, e)),
            },
        },
    }
}

pub fn mailimf_angle_addr_parse(message: &[u8], indx: usize) -> (r: Result<(Vec<u8>, usize), MailError>)
    requires
        indx <= message@.len(),
    ensures
        res_view(r) == spec_angle_addr(message@, indx as int),
        r matches Ok((_, j)) ==> indx < j <= message@.len(),
{
    let k0 = skip_cfws(message, indx);
    let j = mailimf_unstrict_char_parse(message, k0, 60)?;
    let (a, k) = mailimf_addr_spec_parse(message, j)?;
    let e = mailimf_unstrict_char_parse(message, k, 62)?;
    Ok((a, e))
}

/// name-addr: an optional display name and an angle-addr.
pub open spec fn spec_name_addr(s: Seq<u8>, i: int) -> Result<((Option<Seq<u8>>, Seq<u8>), int), MailError> {
    let (dn, j) = match spec_phrase(s, i) {
        Ok((d, j)) => (Ok(Some(d)), j),
        Err(MailError::Parse) => (Ok(None), i),
        Err(x) => (Err(x), i),
    };
    match dn {
        Err(x) => Err(x),
        Ok(d) => match spec_angle_addr(s, j) {
            Ok((a, e)) => Ok(((d, a), e)),
            Err(x) => Err(x),
        },
    }
}

pub fn mailimf_name_addr_parse(message: &[u8], indx: usize) -> (r: Result<((Option<Vec<u8>>, Vec<u8>), usize), MailError>)
    requires
        indx <= message@.len(),
    ensures
        match r {
            Ok(((d, a), e)) => spec_name_addr(message@, indx as int) == Ok::<((Option<Seq<u8>>, Seq<u8>), int), MailError>(((match d {
                Some(v) => Some(v@),
                None => None,
            }, a@), e as int)),
            Err(x) => spec_name_addr(message@, indx as int) == Err::<((Option<Seq<u8>>, Seq<u8>), int), MailError>(x),
        },
        r matches Ok((_, j)) ==> indx < j <= message@.len(),
{
    let (d, j) = match mailimf_phrase_parse(message, indx) {
        Ok((d, j)) => (Some(d), j),
        Err(MailError::Parse) => (None, indx),
        Err(x) => return Err(x),
    };
    let (a, e) = mailimf_angle_addr_parse(message, j)?;
    Ok(((d, a), e))
}

/// A mailbox: an optional display name and an address.
#[allow(non_camel_case_types)]
pub struct mailimf_mailbox {
    pub mb_display_name: Option<Vec<u8>>,
    pub mb_addr_spec: Vec<u8>,
}

pub struct MailboxView {
    pub display_name: Option<Seq<u8>>,
    pub addr_spec: Seq<u8>,
}

pub open spec fn opt_bytes_view(o: Option<Vec<u8>>) -> Option<Seq<u8>> {
    match o {
        Some(v) => Some(v@),
        None => None,
    }
}

impl View for mailimf_mailbox {
    type V = MailboxView;

    open spec fn view(&self) -> MailboxView {
        MailboxView { display_name: opt_bytes_view(self.mb_display_name), addr_spec: self.mb_addr_spec@ }
    }
}

pub fn mailimf_mailbox_new(mb_display_name: Option<Vec<u8>>, mb_addr_spec: Vec<u8>) -> (m: mailimf_mailbox)
    ensures
        m.mb_display_name == mb_display_name,
        m.mb_addr_spec == mb_addr_spec,
{
    mailimf_mailbox { mb_display_name, mb_addr_spec }
}

/// mailbox: a name-addr, or else an addr-spec alone.
pub open spec fn spec_mailbox(s: Seq<u8>, i: int) -> Result<(MailboxView, int), MailError> {
    match spec_name_addr(s, i) {
        Ok(((d, a), e)) => Ok((MailboxView { display_name: d, addr_spec: a }, e)),
        Err(MailError::Parse) => match spec_addr_spec_k(s, i, AddrEnd::Address) {
            Ok((a, e)) => Ok((MailboxView { display_name: None, addr_spec: a }, e)),
            Err(x) => Err(x),
        },
        Err(x) => Err(x),
    }
}

pub fn mailimf_mailbox_parse(message: &[u8], indx: usize) -> (r: Result<(mailimf_mailbox, usize), MailError>)
    requires
        indx <= message@.len(),
    ensures
        res_view(r) == spec_mailbox(message@, indx as int),
        r matches Ok((_, j)) ==> indx < j <= message@.len(),
{
    match mailimf_name_addr_parse(message, indx) {
        Ok(((d, a), e)) => Ok((mailimf_mailbox_new(d, a), e)),
        Err(MailError::Parse) => {
            let (a, e) = mailimf_addr_spec_parse(message, indx)?;
            Ok((mailimf_mailbox_new(None, a), e))
        },
        Err(x) => Err(x),
    }
}

/// A list of mailboxes.
#[allow(non_camel_case_types)]
pub struct mailimf_mailbox_list {
    pub mb_list: Vec<mailimf_mailbox>,
}

pub open spec fn mailboxes_view(v: Seq<mailimf_mailbox>) -> Seq<MailboxView> {
    v.map_values(|m: mailimf_mailbox| m@)
}

impl View for mailimf_mailbox_list {
    type V = Seq<MailboxView>;

    open spec fn view(&self) -> Seq<MailboxView> {
        mailboxes_view(self.mb_list@)
    }
}

pub fn mailimf_mailbox_list_new(mb_list: Vec<mailimf_mailbox>) -> (l: mailimf_mailbox_list)
    ensures
        l.mb_list == mb_list,
{
    mailimf_mailbox_list { mb_list }
}

/// The rest of a mailbox list: mailboxes that each follow a comma. `acc` is
/// what was read so far and `p` the position after the last mailbox.
pub open spec fn spec_mailbox_list_rest(s: Seq<u8>, p: int, acc: Seq<MailboxView>) -> Result<(Seq<MailboxView>, int), MailError>
    decreases s.len() - p,
{
    match spec_unstrict_char(s, p, 44) {
        Err(_) => Ok((acc, p)),
        Ok(k) => match spec_mailbox(s, k) {
            Err(MailError::Parse) => Ok((acc, p)),
            Err(x) => Err(x),
            Ok((m, e)) => if 0 <= p < e <= s.len() {
                spec_mailbox_list_rest(s, e, acc.push(m))
            } else {
                Err(MailError::Parse)
            },
        },
    }
}

/// mailbox-list: one or more mailboxes separated by commas. A trailing comma
/// is left unread.
pub open spec fn spec_mailbox_list(s: Seq<u8>, i: int) -> Result<(Seq<MailboxView>, int), MailError> {
    match spec_mailbox(s, i) {
        Err(x) => Err(x),
        Ok((m, j)) => spec_mailbox_list_rest(s, j, seq![m]),
    }
}

proof fn lemma_unstrict_char_bound(s: Seq<u8>, i: int, c: u8)
    requires
        0 <= i <= s.len(),
    ensures
        spec_unstrict_char(s, i, c) matches Ok(j) ==> i < j <= s.len(),
{
    lemma_cfws(s, i);
}

pub fn mailimf_mailbox_list_parse(message: &[u8], indx: usize) -> (r: Result<(mailimf_mailbox_list, usize), MailError>)
    requires
        indx <= message@.len(),
    ensures
        res_view(r) == spec_mailbox_list(message@, indx as int),
        r matches Ok((_, j)) ==> indx < j <= message@.len(),
{
    let (m, j) = mailimf_mailbox_parse(message, indx)?;
    let ghost whole = spec_mailbox_list_rest(message@, j as int, seq![m@]);
    let mut list: Vec<mailimf_mailbox> = Vec::new();
    list.push(m);
    assert(mailboxes_view(list@) =~= seq![list@[0]@]);
    let mut cur: usize = j;
    loop
        invariant
            indx < cur <= message@.len(),
            whole == spec_mailbox_list(message@, indx as int),
            whole == spec_mailbox_list_rest(message@, cur as int, mailboxes_view(list@)),
        decreases message@.len() - cur,
    {
        proof {
            lemma_unstrict_char_bound(message@, cur as int, 44);
        }
        let k = match mailimf_unstrict_char_parse(message, cur, 44) {
            Ok(k) => k,
            Err(_) => {
                return Ok((mailimf_mailbox_list_new(list), cur));
            },
        };
        match mailimf_mailbox_parse(message, k) {
            Ok((m, e)) => {
                let ghost l0 = list@;
                list.push(m);
                assert(mailboxes_view(list@) =~= mailboxes_view(l0).push(m@));
                cur = e;
            },
            Err(MailError::Parse) => {
                return Ok((mailimf_mailbox_list_new(list), cur));
            },
            Err(x) => {
                return Err(x);
            },
        }
    }
}

/// A group: a display name and the mailboxes it names.
#[allow(non_camel_case_types)]
pub struct mailimf_group {
    pub grp_display_name: Vec<u8>,
    pub grp_mb_list: mailimf_mailbox_list,
}

pub struct GroupView {
    pub display_name: Seq<u8>,
    pub mb_list: Seq<MailboxView>,
}

impl View for mailimf_group {
    type V = GroupView;

    open spec fn view(&self) -> GroupView {
        GroupView { display_name: self.grp_display_name@, mb_list: self.grp_mb_list@ }
    }
}

pub fn mailimf_group_new(grp_display_name: Vec<u8>, grp_mb_list: mailimf_mailbox_list) -> (g: mailimf_group)
    ensures
        g.grp_display_name == grp_display_name,
        g.grp_mb_list == grp_mb_list,
{
    mailimf_group { grp_display_name, grp_mb_list }
}

/// group: a display name, a colon, an optional mailbox list and a semicolon.
pub open spec fn spec_group(s: Seq<u8>, i: int) -> Result<(GroupView, int), MailError> {
    match spec_phrase(s, i) {
        Err(x) => Err(x),
        Ok((d, j)) => match spec_unstrict_char(s, j, 58) {
            Err(x) => Err(x),
            Ok(k) => {
                let l = match spec_mailbox_list(s, k) {
                    Ok((l, e)) => Ok((l, e)),
                    Err(MailError::Parse) => Ok((Seq::<MailboxView>::empty(), spec_skip_cfws(s, k))),
                    Err(x) => Err(x),
                };
                match l {
                    Err(x) => Err(x),
                    Ok((l, e)) => match spec_unstrict_char(s, e, 59) {
                        Err(x) => Err(x),
                        Ok(f) => Ok((GroupView { display_name: d, mb_list: l }, f)),
                    },
                }
            },
        },
    }
}

pub fn mailimf_group_parse(message: &[u8], indx: usize) -> (r: Result<(mailimf_group, usize), MailError>)
    requires
        indx <= message@.len(),
    ensures
        res_view(r) == spec_group(message@, indx as int),
        r matches Ok((_, j)) ==> indx < j <= message@.len(),
{
    let (d, j) = mailimf_phrase_parse(message, indx)?;
    let k = mailimf_unstrict_char_parse(message, j, 58)?;
    let (l, e) = match mailimf_mailbox_list_parse(message, k) {
        Ok((l, e)) => (l, e),
        Err(MailError::Parse) => {
            let l = mailimf_mailbox_list_new(Vec::new());
            assert(l@ =~= Seq::<MailboxView>::empty());
            (l, skip_cfws(message, k))
        },
        Err(x) => return Err(x),
    };
    let f = mailimf_unstrict_char_parse(message, e, 59)?;
    Ok((mailimf_group_new(d, l), f))
}

/// An address: a mailbox or a group.
#[allow(non_camel_case_types)]
pub enum mailimf_address {
    Mailbox(mailimf_mailbox),
    Group(mailimf_group),
}

pub enum AddressView {
    Mailbox(MailboxView),
    Group(GroupView),
}

impl View for mailimf_address {
    type V = AddressView;

    open spec fn view(&self) -> AddressView {
        match self {
            mailimf_address::Mailbox(m) => AddressView::Mailbox(m@),
            mailimf_address::Group(g) => AddressView::Group(g@),
        }
    }
}

/// address: a group, or else a mailbox.
pub open spec fn spec_address(s: Seq<u8>, i: int) -> Result<(AddressView, int), MailError> {
    match spec_group(s, i) {
        Ok((g, e)) => Ok((AddressView::Group(g), e)),
        Err(MailError::Parse) => match spec_mailbox(s, i) {
            Ok((m, e)) => Ok((AddressView::Mailbox(m), e)),
            Err(x) => Err(x),
        },
        Err(x) => Err(x),
    }
}

pub fn mailimf_address_parse(message: &[u8], indx: usize) -> (r: Result<(mailimf_address, usize), MailError>)
    requires
        indx <= message@.len(),
    ensures
        res_view(r) == spec_address(message@, indx as int),
        r matches Ok((_, j)) ==> indx < j <= message@.len(),
{
    match mailimf_group_parse(message, indx) {
        Ok((g, e)) => Ok((mailimf_address::Group(g), e)),
        Err(MailError::Parse) => {
            let (m, e) = mailimf_mailbox_parse(message, indx)?;
            Ok((mailimf_address::Mailbox(m), e))
        },
        Err(x) => Err(x),
    }
}

/// A list of addresses.
#[allow(non_camel_case_types)]
pub struct mailimf_address_list {
    pub ad_list: Vec<mailimf_address>,
}

pub open spec fn addresses_view(v: Seq<mailimf_address>) -> Seq<AddressView> {
    v.map_values(|a: mailimf_address| a@)
}

impl View for mailimf_address_list {
    type V = Seq<AddressView>;

    open spec fn view(&self) -> Seq<AddressView> {
        addresses_view(self.ad_list@)
    }
}

pub fn mailimf_address_list_new(ad_list: Vec<mailimf_address>) -> (l: mailimf_address_list)
    ensures
        l.ad_list == ad_list,
{
    mailimf_address_list { ad_list }
}

pub open spec fn spec_address_list_rest(s: Seq<u8>, p: int, acc: Seq<AddressView>) -> Result<(Seq<AddressView>, int), MailError>
    decreases s.len() - p,
{
    match spec_unstrict_char(s, p, 44) {
        Err(_) => Ok((acc, p)),
        Ok(k) => match spec_address(s, k) {
            Err(MailError::Parse) => Ok((acc, p)),
            Err(x) => Err(x),
            Ok((a, e)) => if 0 <= p < e <= s.len() {
                spec_address_list_rest(s, e, acc.push(a))
            } else {
                Err(MailError::Parse)
            },
        },
    }
}

/// address-list: one or more addresses separated by commas.
pub open spec fn spec_address_list(s: Seq<u8>, i: int) -> Result<(Seq<AddressView>, int), MailError> {
    match spec_address(s, i) {
        Err(x) => Err(x),
        Ok((a, j)) => spec_address_list_rest(s, j, seq![a]),
    }
}

pub fn mailimf_address_list_parse(message: &[u8], indx: usize) -> (r: Result<(mailimf_address_list, usize), MailError>)
    requires
        indx <= message@.len(),
    ensures
        res_view(r) == spec_address_list(message@, indx as int),
        r matches Ok((_, j)) ==> indx < j <= message@.len(),
{
    let (a, j) = mailimf_address_parse(message, indx)?;
    let ghost whole = spec_address_list_rest(message@, j as int, seq![a@]);
    let mut list: Vec<mailimf_address> = Vec::new();
    list.push(a);
    assert(addresses_view(list@) =~= seq![list@[0]@]);
    let mut cur: usize = j;
    loop
        invariant
            indx < cur <= message@.len(),
            whole == spec_address_list(message@, indx as int),
            whole == spec_address_list_rest(message@, cur as int, addresses_view(list@)),
        decreases message@.len() - cur,
    {
        proof {
            lemma_unstrict_char_bound(message@, cur as int, 44);
        }
        let k = match mailimf_unstrict_char_parse(message, cur, 44) {
            Ok(k) => k,
            Err(_) => {
                return Ok((mailimf_address_list_new(list), cur));
            },
        };
        match mailimf_address_parse(message, k) {
            Ok((a, e)) => {
                let ghost l0 = list@;
                list.push(a);
                assert(addresses_view(list@) =~= addresses_view(l0).push(a@));
                cur = e;
            },
            Err(MailError::Parse) => {
                return Ok((mailimf_address_list_new(list), cur));
            },
            Err(x) => {
                return Err(x);
            },
        }
    }
}


/// A new address: the mailbox for `MAILIMF_ADDRESS_MAILBOX` (1), the group
/// for `MAILIMF_ADDRESS_GROUP` (2); none when the kind is another number or
/// its part is missing.
pub fn mailimf_address_new(ad_type: i32, ad_mailbox: Option<mailimf_mailbox>, ad_group: Option<mailimf_group>) -> (a: Option<mailimf_address>)
    ensures
        a == (if ad_type == 1 && ad_mailbox is Some {
            Some(mailimf_address::Mailbox(ad_mailbox.unwrap()))
        } else if ad_type == 2 && ad_group is Some {
            Some(mailimf_address::Group(ad_group.unwrap()))
        } else {
            None
        }),
{
    if ad_type == 1 {
        match ad_mailbox {
            Some(m) => Some(mailimf_address::Mailbox(m)),
            None => None,
        }
    } else if ad_type == 2 {
        match ad_group {
            Some(g) => Some(mailimf_address::Group(g)),
            None => None,
        }
    } else {
        None
    }
}

/// A byte that an address read from a header never holds: white space,
/// `(`, `)`, `,`, `:`, `;`, `>`, CR or LF.
pub open spec fn addr_stop_byte(c: u8) -> bool {
    c == 32 || c == 9 || c == 40 || c == 41 || c == 44 || c == 58 || c == 59 || c == 62 || c == 13 || c == 10
}

/// An address with none of the bytes that end an address or start a comment.
pub open spec fn addr_clean(a: Seq<u8>) -> bool {
    forall|m: int| 0 <= m < a.len() ==> !addr_stop_byte(#[trigger] a[m])
}

/// Every mailbox of an address, a group's too, has a clean address.
pub open spec fn address_clean(a: AddressView) -> bool {
    match a {
        AddressView::Mailbox(m) => addr_clean(m.addr_spec),
        AddressView::Group(g) => forall|n: int| 0 <= n < g.mb_list.len() ==> addr_clean(#[trigger] g.mb_list[n].addr_spec),
    }
}

proof fn lemma_addr_end_bytes(s: Seq<u8>, p: int, m: int, k: AddrEnd)
    requires
        0 <= p <= m < spec_addr_end(s, p, k),
    ensures
        m < s.len(),
        !spec_is_addr_end(k, s[m]),
    decreases m - p,
{
    if p < m {
        lemma_addr_end_bytes(s, p + 1, m, k);
    }
}

proof fn lemma_strip_wsp_keeps(x: Seq<u8>)
    requires
        forall|m: int| 0 <= m < x.len() ==> !(x[m] == 40 || x[m] == 41 || x[m] == 44 || x[m] == 58
            || x[m] == 59 || x[m] == 62 || x[m] == 13 || x[m] == 10),
    ensures
        addr_clean(spec_strip_wsp(x)),
    decreases x.len(),
{
    if x.len() > 0 {
        lemma_strip_wsp_keeps(x.drop_last());
        let p = spec_strip_wsp(x.drop_last());
        assert(x.last() == x[x.len() - 1]);
        if !(x.last() == 32 || x.last() == 9) {
            assert forall|m: int| 0 <= m < p.push(x.last()).len() implies !addr_stop_byte(#[trigger] p.push(x.last())[m]) by {
                if m < p.len() {
                    assert(p.push(x.last())[m] == p[m]);
                }
            }
        }
    }
}

proof fn lemma_addr_spec_clean(s: Seq<u8>, i: int)
    ensures
        spec_addr_spec_k(s, i, AddrEnd::Address) matches Ok((a, _)) ==> addr_clean(a),
{
    let b = spec_skip_cfws(s, i);
    let e = spec_addr_end(s, b, AddrEnd::Address);
    if e > b {
        assert(0 <= b < s.len());
        lemma_addr_end(s, b, AddrEnd::Address);
        let x = s.subrange(b, e);
        assert forall|m: int| 0 <= m < x.len() implies !(x[m] == 40 || x[m] == 41 || x[m] == 44 || x[m] == 58
            || x[m] == 59 || x[m] == 62 || x[m] == 13 || x[m] == 10) by {
            if b >= 0 {
                lemma_addr_end_bytes(s, b, b + m, AddrEnd::Address);
            }
            assert(x[m] == s[b + m]);
        }
        if b >= 0 {
            lemma_strip_wsp_keeps(x);
        }
    }
}

proof fn lemma_addr_spec_start(s: Seq<u8>, i: int)
    ensures
        spec_addr_spec_k(s, i, AddrEnd::Address) is Ok ==> spec_skip_cfws(s, i) >= 0,
{
    let b = spec_skip_cfws(s, i);
    if b < 0 {
        assert(spec_addr_end(s, b, AddrEnd::Address) == b);
    }
}

/// The address of a mailbox never holds white space, `(`, `)`, `,`, `:`,
/// `;`, `>`, CR or LF: a comment after an address is not part of it.
pub proof fn law_mailbox_address_clean(s: Seq<u8>, i: int)
    ensures
        spec_mailbox(s, i) matches Ok((mb, _)) ==> addr_clean(mb.addr_spec),
{
    lemma_addr_spec_start(s, i);
    lemma_addr_spec_clean(s, i);
    if let Ok((_, j)) = spec_phrase(s, i) {
        let j1 = spec_skip_cfws(s, j);
        if let Ok(k) = spec_unstrict_char(s, j1, 60) {
            lemma_addr_spec_start(s, k);
            lemma_addr_spec_clean(s, k);
        }
    }
    let j1 = spec_skip_cfws(s, i);
    if let Ok(k) = spec_unstrict_char(s, j1, 60) {
        lemma_addr_spec_start(s, k);
        lemma_addr_spec_clean(s, k);
    }
}

proof fn lemma_mailbox_list_rest_clean(s: Seq<u8>, p: int, acc: Seq<MailboxView>)
    requires
        forall|n: int| 0 <= n < acc.len() ==> addr_clean(#[trigger] acc[n].addr_spec),
    ensures
        spec_mailbox_list_rest(s, p, acc) matches Ok((l, _))
            ==> forall|n: int| 0 <= n < l.len() ==> addr_clean(#[trigger] l[n].addr_spec),
    decreases s.len() - p,
{
    if let Ok(k) = spec_unstrict_char(s, p, 44) {
        law_mailbox_address_clean(s, k);
        if let Ok((m, e)) = spec_mailbox(s, k) {
            if 0 <= p < e <= s.len() {
                let acc2 = acc.push(m);
                assert forall|n: int| 0 <= n < acc2.len() implies addr_clean(#[trigger] acc2[n].addr_spec) by {
                    if n < acc.len() {
                        assert(acc2[n] == acc[n]);
                    }
                }
                lemma_mailbox_list_rest_clean(s, e, acc2);
            }
        }
    }
}

/// Every mailbox of a mailbox list has a clean address.
pub proof fn law_mailbox_list_addresses_clean(s: Seq<u8>, i: int)
    ensures
        spec_mailbox_list(s, i) matches Ok((l, _))
            ==> forall|n: int| 0 <= n < l.len() ==> addr_clean(#[trigger] l[n].addr_spec),
{
    law_mailbox_address_clean(s, i);
    if let Ok((m, j)) = spec_mailbox(s, i) {
        lemma_mailbox_list_rest_clean(s, j, seq![m]);
    }
}

/// Every mailbox of an address, a group's included, has a clean address.
pub proof fn law_address_clean(s: Seq<u8>, i: int)
    ensures
        spec_address(s, i) matches Ok((a, _)) ==> address_clean(a),
{
    law_mailbox_address_clean(s, i);
    if let Ok((d, j)) = spec_phrase(s, i) {
        if let Ok(k) = spec_unstrict_char(s, j, 58) {
            law_mailbox_list_addresses_clean(s, k);
        }
    }
}

proof fn lemma_address_list_rest_clean(s: Seq<u8>, p: int, acc: Seq<AddressView>)
    requires
        forall|n: int| 0 <= n < acc.len() ==> address_clean(#[trigger] acc[n]),
    ensures
        spec_address_list_rest(s, p, acc) matches Ok((l, _))
            ==> forall|n: int| 0 <= n < l.len() ==> address_clean(#[trigger] l[n]),
    decreases s.len() - p,
{
    if let Ok(k) = spec_unstrict_char(s, p, 44) {
        law_address_clean(s, k);
        if let Ok((a, e)) = spec_address(s, k) {
            if 0 <= p < e <= s.len() {
                let acc2 = acc.push(a);
                assert forall|n: int| 0 <= n < acc2.len() implies address_clean(#[trigger] acc2[n]) by {
                    if n < acc.len() {
                        assert(acc2[n] == acc[n]);
                    }
                }
                lemma_address_list_rest_clean(s, e, acc2);
            }
        }
    }
}

/// Every mailbox of an address list, in groups too, has a clean address.
pub proof fn law_address_list_clean(s: Seq<u8>, i: int)
    ensures
        spec_address_list(s, i) matches Ok((l, _))
            ==> forall|n: int| 0 <= n < l.len() ==> address_clean(#[trigger] l[n]),
{
    law_address_clean(s, i);
    if let Ok((a, j)) = spec_address(s, i) {
        lemma_address_list_rest_clean(s, j, seq![a]);
    }
}

/// A message id with no `>`, CR, LF, space or tab.
pub open spec fn msg_id_clean(a: Seq<u8>) -> bool {
    forall|m: int| 0 <= m < a.len() ==> #[trigger] a[m] != 62 && a[m] != 13 && a[m] != 10 && a[m] != 32 && a[m] != 9
}

proof fn lemma_strip_wsp_msg_id(x: Seq<u8>)
    requires
        forall|m: int| 0 <= m < x.len() ==> !(x[m] == 62 || x[m] == 13 || x[m] == 10),
    ensures
        msg_id_clean(spec_strip_wsp(x)),
    decreases x.len(),
{
    if x.len() > 0 {
        lemma_strip_wsp_msg_id(x.drop_last());
        let p = spec_strip_wsp(x.drop_last());
        assert(x.last() == x[x.len() - 1]);
        if !(x.last() == 32 || x.last() == 9) {
            assert forall|m: int| 0 <= m < p.push(x.last()).len() implies #[trigger] p.push(x.last())[m] != 62
                && p.push(x.last())[m] != 13 && p.push(x.last())[m] != 10 && p.push(x.last())[m] != 32
                && p.push(x.last())[m] != 9 by {
                if m < p.len() {
                    assert(p.push(x.last())[m] == p[m]);
                }
            }
        }
    }
}

/// The inside of a message id, read up to its end byte, holds no `>`, CR,
/// LF, space or tab.
pub proof fn lemma_addr_spec_msg_id_clean(s: Seq<u8>, i: int)
    ensures
        spec_addr_spec_k(s, i, AddrEnd::MsgId) matches Ok((a, _)) ==> msg_id_clean(a),
{
    let b = spec_skip_cfws(s, i);
    let e = spec_addr_end(s, b, AddrEnd::MsgId);
    if e > b {
        assert(0 <= b < s.len());
        lemma_addr_end(s, b, AddrEnd::MsgId);
        let x = s.subrange(b, e);
        assert forall|m: int| 0 <= m < x.len() implies !(x[m] == 62 || x[m] == 13 || x[m] == 10) by {
            lemma_addr_end_bytes(s, b, b + m, AddrEnd::MsgId);
            assert(x[m] == s[b + m]);
        }
        lemma_strip_wsp_msg_id(x);
    }
}

} // verus!
