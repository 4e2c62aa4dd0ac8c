//! Character classes of RFC 2822 and RFC 2045-2047, on bytes.

use vstd::prelude::*;

verus! {

/// NO-WS-CTL: control characters other than CR, LF and white space.
pub open spec fn spec_is_no_ws_ctl(c: u8) -> bool {
    (1 <= c <= 8) || c == 11 || c == 12 || (14 <= c <= 31) || c == 127
}

/// ctext: the characters that may stand in a comment without quoting.
pub open spec fn spec_is_ctext(c: u8) -> bool {
    spec_is_no_ws_ctl(c) || (c >= 33 && c != 40 && c != 41 && c != 92 && c != 127)
}

/// qtext: the characters that may stand in a quoted string without quoting.
pub open spec fn spec_is_qtext(c: u8) -> bool {
    spec_is_no_ws_ctl(c) || (c >= 33 && c != 34 && c != 92 && c != 127)
}

/// The characters that may form an atom: all but white space and a few specials.
pub open spec fn spec_is_atext(c: u8) -> bool {
    !(c == 32 || c == 9 || c == 10 || c == 13 || c == 60 || c == 62 || c == 44 || c == 34
        || c == 58 || c == 59)
}

/// ftext: printable characters other than the colon.
pub open spec fn spec_is_ftext(c: u8) -> bool {
    c >= 33 && c != 58
}

pub open spec fn spec_is_digit(c: u8) -> bool {
    48 <= c <= 57
}

/// WSP: space or horizontal tab.
pub open spec fn spec_is_wsp(c: u8) -> bool {
    c == 32 || c == 9
}

/// tspecials of RFC 2045.
pub open spec fn spec_is_tspecials(c: u8) -> bool {
    c == 40 || c == 41 || c == 60 || c == 62 || c == 64 || c == 44 || c == 59 || c == 58
        || c == 92 || c == 34 || c == 47 || c == 91 || c == 93 || c == 63 || c == 61
}

/// token characters of RFC 2045: ASCII but space, controls are allowed, tspecials are not.
pub open spec fn spec_is_token(c: u8) -> bool {
    c <= 127 && c != 32 && !spec_is_tspecials(c)
}

/// text of RFC 2045: any byte but NUL, CR and LF.
pub open spec fn spec_is_text(c: u8) -> bool {
    c >= 1 && c != 10 && c != 13
}

/// The characters of an encoded-word token (charset) of RFC 2047.
pub open spec fn spec_is_etoken_char(c: u8) -> bool {
    c >= 31 && !(c == 32 || c == 40 || c == 41 || c == 60 || c == 62 || c == 64 || c == 44
        || c == 59 || c == 58 || c == 34 || c == 47 || c == 91 || c == 93 || c == 63 || c == 61)
}

/// ASCII upper case of a byte; other bytes are left alone.
pub open spec fn spec_to_upper(c: u8) -> u8 {
    if 97 <= c <= 122 {
        (c - 32) as u8
    } else {
        c
    }
}

pub fn is_no_ws_ctl(c: u8) -> (r: bool)
    ensures
        r == spec_is_no_ws_ctl(c),
{
    (1 <= c && c <= 8) || c == 11 || c == 12 || (14 <= c && c <= 31) || c == 127
}

pub fn is_ctext(c: u8) -> (r: bool)
    ensures
        r == spec_is_ctext(c),
{
    if is_no_ws_ctl(c) {
        return true;
    }
    if c < 33 {
        return false;
    }
    !(c == 40 || c == 41 || c == 92 || c == 127)
}

pub fn is_qtext(c: u8) -> (r: bool)
    ensures
        r == spec_is_qtext(c),
{
    if is_no_ws_ctl(c) {
        return true;
    }
    if c < 33 {
        return false;
    }
    !(c == 34 || c == 92 || c == 127)
}

pub fn is_atext(c: u8) -> (r: bool)
    ensures
        r == spec_is_atext(c),
{
    !(c == 32 || c == 9 || c == 10 || c == 13 || c == 60 || c == 62 || c == 44 || c == 34
        || c == 58 || c == 59)
}

pub fn is_ftext(c: u8) -> (r: bool)
    ensures
        r == spec_is_ftext(c),
{
    c >= 33 && c != 58
}

pub fn is_digit(c: u8) -> (r: bool)
    ensures
        r == spec_is_digit(c),
{
    48 <= c && c <= 57
}

pub fn is_wsp(c: u8) -> (r: bool)
    ensures
        r == spec_is_wsp(c),
{
    c == 32 || c == 9
}

pub fn is_tspecials(c: u8) -> (r: bool)
    ensures
        r == spec_is_tspecials(c),
{
    c == 40 || c == 41 || c == 60 || c == 62 || c == 64 || c == 44 || c == 59 || c == 58
        || c == 92 || c == 34 || c == 47 || c == 91 || c == 93 || c == 63 || c == 61
}

pub fn is_token(c: u8) -> (r: bool)
    ensures
        r == spec_is_token(c),
{
    if c > 127 {
        return false;
    }
    if c == 32 {
        return false;
    }
    !is_tspecials(c)
}

pub fn is_text(c: u8) -> (r: bool)
    ensures
        r == spec_is_text(c),
{
    c >= 1 && c != 10 && c != 13
}

pub fn is_etoken_char(c: u8) -> (r: bool)
    ensures
        r == spec_is_etoken_char(c),
{
    if c < 31 {
        return false;
    }
    !(c == 32 || c == 40 || c == 41 || c == 60 || c == 62 || c == 64 || c == 44 || c == 59
        || c == 58 || c == 34 || c == 47 || c == 91 || c == 93 || c == 63 || c == 61)
}

pub fn to_upper(c: u8) -> (r: u8)
    ensures
        r == spec_to_upper(c),
{
    if 97 <= c && c <= 122 {
        c - 32
    } else {
        c
    }
}

/// A set of characters that a run of text may be made of.
#[derive(PartialEq, Eq, Structural, Clone, Copy, Debug)]
pub enum CharClass {
    Atext,
    Ftext,
    Token,
    Text,
    Etoken,
}

pub open spec fn spec_class_has(k: CharClass, c: u8) -> bool {
    match k {
        CharClass::Atext => spec_is_atext(c),
        CharClass::Ftext => spec_is_ftext(c),
        CharClass::Token => spec_is_token(c),
        CharClass::Text => spec_is_text(c),
        CharClass::Etoken => spec_is_etoken_char(c),
    }
}

pub fn class_has(k: CharClass, c: u8) -> (r: bool)
    ensures
        r == spec_class_has(k, c),
{
    match k {
        CharClass::Atext => is_atext(c),
        CharClass::Ftext => is_ftext(c),
        CharClass::Token => is_token(c),
        CharClass::Text => is_text(c),
        CharClass::Etoken => is_etoken_char(c),
    }
}

} // verus!
