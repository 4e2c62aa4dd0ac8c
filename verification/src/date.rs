//! Dates and times of RFC 2822 (`Mon, 12 Feb 2001 10:00:00 +0100`), with the
//! lenient readings that the parser allows.

use vstd::prelude::*;
use crate::MailError;
use crate::res_view;
use crate::lex::{spec_skip_cfws, spec_skip_fws, spec_fws, spec_unstrict_char, spec_number,
    spec_token_ci, skip_cfws, skip_fws, lemma_cfws, lemma_fws, mailimf_unstrict_char_parse,
    mailimf_number_parse, mailimf_fws_parse, mailimf_token_case_insensitive_len_parse};
use crate::chars::{spec_to_upper, to_upper};

verus! {

/// A date and time as the header gives it; the zone is written as a number
/// such as `+0100` (so `100`), or `-500` for `EST`.
#[allow(non_camel_case_types)]
#[derive(PartialEq, Eq, Structural, Clone, Copy, Debug)]
pub struct mailimf_date_time {
    pub dt_day: i32,
    pub dt_month: i32,
    pub dt_year: i32,
    pub dt_hour: i32,
    pub dt_min: i32,
    pub dt_sec: i32,
    pub dt_zone: i32,
}

impl View for mailimf_date_time {
    type V = mailimf_date_time;

    open spec fn view(&self) -> mailimf_date_time {
        *self
    }
}

pub fn mailimf_date_time_new(dt_day: i32, dt_month: i32, dt_year: i32, dt_hour: i32, dt_min: i32, dt_sec: i32, dt_zone: i32) -> (d: mailimf_date_time)
    ensures
        d == (mailimf_date_time { dt_day, dt_month, dt_year, dt_hour, dt_min, dt_sec, dt_zone }),
{
    mailimf_date_time { dt_day, dt_month, dt_year, dt_hour, dt_min, dt_sec, dt_zone }
}

/// The upper case of the byte at `i`, if there is one.
pub open spec fn up_at(s: Seq<u8>, i: int) -> Option<u8> {
    if 0 <= i < s.len() {
        Some(spec_to_upper(s[i]))
    } else {
        None
    }
}

/// The day of the week (1 for Monday) that the first letters at `i` point to, or -1.
pub open spec fn spec_guess_day_name(s: Seq<u8>, i: int) -> i32 {
    match up_at(s, i) {
        Some(77) => 1,
        Some(87) => 3,
        Some(70) => 5,
        Some(84) => match up_at(s, i + 1) {
            Some(85) => 2,
            Some(72) => 4,
            _ => -1i32,
        },
        Some(83) => match up_at(s, i + 1) {
            Some(65) => 6,
            Some(85) => 7,
            _ => -1i32,
        },
        _ => -1i32,
    }
}

/// The month (1 for January) that the first letters at `i` point to, or -1.
pub open spec fn spec_guess_month(s: Seq<u8>, i: int) -> i32 {
    match up_at(s, i) {
        Some(74) => match up_at(s, i + 1) {
            Some(65) => 1,
            Some(85) => match up_at(s, i + 2) {
                Some(78) => 6,
                Some(76) => 7,
                _ => -1i32,
            },
            _ => -1i32,
        },
        Some(70) => 2,
        Some(77) => match up_at(s, i + 1) {
            Some(65) => match up_at(s, i + 2) {
                Some(89) => 5,
                Some(82) => 3,
                _ => -1i32,
            },
            _ => -1i32,
        },
        Some(65) => match up_at(s, i + 1) {
            Some(80) => 4,
            Some(85) => 8,
            _ => -1i32,
        },
        Some(83) => 9,
        Some(79) => 10,
        Some(78) => 11,
        Some(68) => 12,
        _ => -1i32,
    }
}

pub fn guess_day_name(message: &[u8], indx: usize) -> (r: i32)
    ensures
        r == spec_guess_day_name(message@, indx as int),
{
    if indx >= message.len() {
        return -1;
    }
    let c = to_upper(message[indx]);
    if c == 77 {
        1
    } else if c == 87 {
        3
    } else if c == 70 {
        5
    } else if c == 84 || c == 83 {
        if indx + 1 >= message.len() {
            return -1;
        }
        let d = to_upper(message[indx + 1]);
        if c == 84 {
            if d == 85 { 2 } else if d == 72 { 4 } else { -1 }
        } else {
            if d == 65 { 6 } else if d == 85 { 7 } else { -1 }
        }
    } else {
        -1
    }
}

pub fn guess_month(message: &[u8], indx: usize) -> (r: i32)
    ensures
        r == spec_guess_month(message@, indx as int),
{
    if indx >= message.len() {
        return -1;
    }
    let c = to_upper(message[indx]);
    if c == 70 {
        return 2;
    } else if c == 83 {
        return 9;
    } else if c == 79 {
        return 10;
    } else if c == 78 {
        return 11;
    } else if c == 68 {
        return 12;
    }
    if !(c == 74 || c == 77 || c == 65) {
        return -1;
    }
    if indx + 1 >= message.len() {
        return -1;
    }
    let d = to_upper(message[indx + 1]);
    if c == 65 {
        return if d == 80 { 4 } else if d == 85 { 8 } else { -1 };
    }
    if c == 74 && d == 65 {
        return 1;
    }
    if !((c == 74 && d == 85) || (c == 77 && d == 65)) {
        return -1;
    }
    if indx + 2 >= message.len() {
        return -1;
    }
    let e = to_upper(message[indx + 2]);
    if c == 74 {
        if e == 78 { 6 } else if e == 76 { 7 } else { -1 }
    } else {
        if e == 89 { 5 } else if e == 82 { 3 } else { -1 }
    }
}

/// The three-letter name of a day of the week (1 for Monday).
pub open spec fn day_name(d: i32) -> Seq<u8> {
    if d == 1 { seq![77u8, 111u8, 110u8] }
    else if d == 2 { seq![84u8, 117u8, 101u8] }
    else if d == 3 { seq![87u8, 101u8, 100u8] }
    else if d == 4 { seq![84u8, 104u8, 117u8] }
    else if d == 5 { seq![70u8, 114u8, 105u8] }
    else if d == 6 { seq![83u8, 97u8, 116u8] }
    else { seq![83u8, 117u8, 110u8] }
}

/// The three-letter name of a month (1 for January).
pub open spec fn month_name(m: i32) -> Seq<u8> {
    if m == 1 { seq![74u8, 97u8, 110u8] }
    else if m == 2 { seq![70u8, 101u8, 98u8] }
    else if m == 3 { seq![77u8, 97u8, 114u8] }
    else if m == 4 { seq![65u8, 112u8, 114u8] }
    else if m == 5 { seq![77u8, 97u8, 121u8] }
    else if m == 6 { seq![74u8, 117u8, 110u8] }
    else if m == 7 { seq![74u8, 117u8, 108u8] }
    else if m == 8 { seq![65u8, 117u8, 103u8] }
    else if m == 9 { seq![83u8, 101u8, 112u8] }
    else if m == 10 { seq![79u8, 99u8, 116u8] }
    else if m == 11 { seq![78u8, 111u8, 118u8] }
    else { seq![68u8, 101u8, 99u8] }
}

pub(crate) fn day_name_bytes(d: i32) -> (r: [u8; 3])
    ensures
        r@ == day_name(d),
{
    if d == 1 { [77, 111, 110] }
    else if d == 2 { [84, 117, 101] }
    else if d == 3 { [87, 101, 100] }
    else if d == 4 { [84, 104, 117] }
    else if d == 5 { [70, 114, 105] }
    else if d == 6 { [83, 97, 116] }
    else { [83, 117, 110] }
}

pub(crate) fn month_name_bytes(m: i32) -> (r: [u8; 3])
    ensures
        r@ == month_name(m),
{
    if m == 1 { [74, 97, 110] }
    else if m == 2 { [70, 101, 98] }
    else if m == 3 { [77, 97, 114] }
    else if m == 4 { [65, 112, 114] }
    else if m == 5 { [77, 97, 121] }
    else if m == 6 { [74, 117, 110] }
    else if m == 7 { [74, 117, 108] }
    else if m == 8 { [65, 117, 103] }
    else if m == 9 { [83, 101, 112] }
    else if m == 10 { [79, 99, 116] }
    else if m == 11 { [78, 111, 118] }
    else { [68, 101, 99] }
}

/// day-name: the name of a day of the week, whatever its case.
pub open spec fn spec_day_name(s: Seq<u8>, i: int) -> Result<(i32, int), MailError> {
    let g = spec_guess_day_name(s, i);
    if g == -1 {
        Err(MailError::Parse)
    } else {
        match spec_token_ci(s, i, day_name(g)) {
            Ok(j) => Ok((g, j)),
            Err(x) => Err(x),
        }
    }
}

pub fn mailimf_day_name_parse(message: &[u8], indx: usize) -> (r: Result<(i32, usize), MailError>)
    ensures
        res_view(r) == spec_day_name(message@, indx as int),
{
    let g = guess_day_name(message, indx);
    if g == -1 {
        return Err(MailError::Parse);
    }
    let name = day_name_bytes(g);
    let j = mailimf_token_case_insensitive_len_parse(message, indx, &name)?;
    Ok((g, j))
}

/// day-of-week: a day name after optional CFWS.
pub open spec fn spec_day_of_week(s: Seq<u8>, i: int) -> Result<(i32, int), MailError> {
    spec_day_name(s, spec_skip_cfws(s, i))
}

pub fn mailimf_day_of_week_parse(message: &[u8], indx: usize) -> (r: Result<(i32, usize), MailError>)
    requires
        indx <= message@.len(),
    ensures
        res_view(r) == spec_day_of_week(message@, indx as int),
        r matches Ok((_, j)) ==> indx < j <= message@.len(),
{
    let k = skip_cfws(message, indx);
    let r = mailimf_day_name_parse(message, k);
    proof {
        if let Ok((g, j)) = r {
            assert(day_name(g).len() == 3);
        }
    }
    r
}

/// month-name: the name of a month, whatever its case.
pub open spec fn spec_month_name(s: Seq<u8>, i: int) -> Result<(i32, int), MailError> {
    let g = spec_guess_month(s, i);
    if g == -1 {
        Err(MailError::Parse)
    } else {
        match spec_token_ci(s, i, month_name(g)) {
            Ok(j) => Ok((g, j)),
            Err(x) => Err(x),
        }
    }
}

pub fn mailimf_month_name_parse(message: &[u8], indx: usize) -> (r: Result<(i32, usize), MailError>)
    ensures
        res_view(r) == spec_month_name(message@, indx as int),
        r matches Ok((_, j)) ==> indx < j <= message@.len(),
        r matches Ok((v, _)) ==> 1 <= v <= 12,
{
    let g = guess_month(message, indx);
    if g == -1 {
        return Err(MailError::Parse);
    }
    let name = month_name_bytes(g);
    let j = mailimf_token_case_insensitive_len_parse(message, indx, &name)?;
    Ok((g, j))
}

/// month: a month name after optional CFWS.
pub open spec fn spec_month(s: Seq<u8>, i: int) -> Result<(i32, int), MailError> {
    spec_month_name(s, spec_skip_cfws(s, i))
}

pub fn mailimf_month_parse(message: &[u8], indx: usize) -> (r: Result<(i32, usize), MailError>)
    requires
        indx <= message@.len(),
    ensures
        res_view(r) == spec_month(message@, indx as int),
        r matches Ok((_, j)) ==> indx < j <= message@.len(),
        r matches Ok((v, _)) ==> 1 <= v <= 12,
{
    let k = skip_cfws(message, indx);
    mailimf_month_name_parse(message, k)
}

/// A number after optional CFWS, as a C `int` (so a value above 2^31 - 1 wraps).
pub open spec fn spec_cfws_number(s: Seq<u8>, i: int) -> Result<(i32, int), MailError> {
    match spec_number(s, spec_skip_cfws(s, i)) {
        Ok((v, j)) => Ok((v as i32, j)),
        Err(x) => Err(x),
    }
}

fn cfws_number(message: &[u8], indx: usize) -> (r: Result<(i32, usize), MailError>)
    requires
        indx <= message@.len(),
    ensures
        res_view(r) == spec_cfws_number(message@, indx as int),
        r matches Ok((_, j)) ==> indx < j <= message@.len(),
{
    let k = skip_cfws(message, indx);
    let (v, j) = mailimf_number_parse(message, k)?;
    Ok((v as i32, j))
}

pub fn mailimf_day_parse(message: &[u8], indx: usize) -> (r: Result<(i32, usize), MailError>)
    requires
        indx <= message@.len(),
    ensures
        res_view(r) == spec_cfws_number(message@, indx as int),
        r matches Ok((_, j)) ==> indx < j <= message@.len(),
{
    cfws_number(message, indx)
}

pub fn mailimf_year_parse(message: &[u8], indx: usize) -> (r: Result<(i32, usize), MailError>)
    requires
        indx <= message@.len(),
    ensures
        res_view(r) == spec_cfws_number(message@, indx as int),
        r matches Ok((_, j)) ==> indx < j <= message@.len(),
{
    cfws_number(message, indx)
}

/// A number read as it stands, as a C `int`.
pub open spec fn spec_int_number(s: Seq<u8>, i: int) -> Result<(i32, int), MailError> {
    match spec_number(s, i) {
        Ok((v, j)) => Ok((v as i32, j)),
        Err(x) => Err(x),
    }
}

fn int_number(message: &[u8], indx: usize) -> (r: Result<(i32, usize), MailError>)
    requires
        indx <= message@.len(),
    ensures
        res_view(r) == spec_int_number(message@, indx as int),
        r matches Ok((_, j)) ==> indx < j <= message@.len(),
{
    let (v, j) = mailimf_number_parse(message, indx)?;
    Ok((v as i32, j))
}

pub fn mailimf_hour_parse(message: &[u8], indx: usize) -> (r: Result<(i32, usize), MailError>)
    requires
        indx <= message@.len(),
    ensures
        res_view(r) == spec_int_number(message@, indx as int),
        r matches Ok((_, j)) ==> indx < j <= message@.len(),
{
    int_number(message, indx)
}

pub fn mailimf_minute_parse(message: &[u8], indx: usize) -> (r: Result<(i32, usize), MailError>)
    requires
        indx <= message@.len(),
    ensures
        res_view(r) == spec_int_number(message@, indx as int),
        r matches Ok((_, j)) ==> indx < j <= message@.len(),
{
    int_number(message, indx)
}

pub fn mailimf_second_parse(message: &[u8], indx: usize) -> (r: Result<(i32, usize), MailError>)
    requires
        indx <= message@.len(),
    ensures
        res_view(r) == spec_int_number(message@, indx as int),
        r matches Ok((_, j)) ==> indx < j <= message@.len(),
{
    int_number(message, indx)
}

/// date: day, month and year.
pub open spec fn spec_date(s: Seq<u8>, i: int) -> Result<((i32, i32, i32), int), MailError> {
    match spec_cfws_number(s, i) {
        Err(x) => Err(x),
        Ok((d, j)) => match spec_month(s, j) {
            Err(x) => Err(x),
            Ok((m, k)) => match spec_cfws_number(s, k) {
                Err(x) => Err(x),
                Ok((y, e)) => Ok(((d, m, y), e)),
            },
        },
    }
}

/// A date written month first: month, day and year.
pub open spec fn spec_broken_date(s: Seq<u8>, i: int) -> Result<((i32, i32, i32), int), MailError> {
    match spec_month(s, i) {
        Err(x) => Err(x),
        Ok((m, j)) => match spec_cfws_number(s, j) {
            Err(x) => Err(x),
            Ok((d, k)) => match spec_cfws_number(s, k) {
                Err(x) => Err(x),
                Ok((y, e)) => Ok(((d, m, y), e)),
            },
        },
    }
}

/// Reads a date; gives day, month and year.
pub fn mailimf_date_parse(message: &[u8], indx: usize) -> (r: Result<((i32, i32, i32), usize), MailError>)
    requires
        indx <= message@.len(),
    ensures
        res_view(r) == spec_date(message@, indx as int),
        r matches Ok((_, j)) ==> indx < j <= message@.len(),
        r matches Ok((v, _)) ==> 1 <= v.1 <= 12,
{
    let (d, j) = mailimf_day_parse(message, indx)?;
    let (m, k) = mailimf_month_parse(message, j)?;
    let (y, e) = mailimf_year_parse(message, k)?;
    Ok(((d, m, y), e))
}

/// Reads a date written month first; gives day, month and year.
pub fn mailimf_broken_date_parse(message: &[u8], indx: usize) -> (r: Result<((i32, i32, i32), usize), MailError>)
    requires
        indx <= message@.len(),
    ensures
        res_view(r) == spec_broken_date(message@, indx as int),
        r matches Ok((_, j)) ==> indx < j <= message@.len(),
        r matches Ok((v, _)) ==> 1 <= v.1 <= 12,
{
    let (m, j) = mailimf_month_parse(message, indx)?;
    let (d, k) = mailimf_day_parse(message, j)?;
    let (y, e) = mailimf_year_parse(message, k)?;
    Ok(((d, m, y), e))
}

/// time-of-day: hour, minute and optional second.
pub open spec fn spec_time_of_day(s: Seq<u8>, i: int) -> Result<((i32, i32, i32), int), MailError> {
    match spec_int_number(s, i) {
        Err(x) => Err(x),
        Ok((h, j)) => match spec_unstrict_char(s, j, 58) {
            Err(x) => Err(x),
            Ok(k) => match spec_int_number(s, k) {
                Err(x) => Err(x),
                Ok((m, l)) => match spec_unstrict_char(s, l, 58) {
                    Ok(p) => match spec_int_number(s, p) {
                        Err(x) => Err(x),
                        Ok((sec, e)) => Ok(((h, m, sec), e)),
                    },
                    Err(_) => Ok(((h, m, 0i32), l)),
                },
            },
        },
    }
}

pub fn mailimf_time_of_day_parse(message: &[u8], indx: usize) -> (r: Result<((i32, i32, i32), usize), MailError>)
    requires
        indx <= message@.len(),
    ensures
        res_view(r) == spec_time_of_day(message@, indx as int),
        r matches Ok((_, j)) ==> indx < j <= message@.len(),
{
    let (h, j) = mailimf_hour_parse(message, indx)?;
    let k = mailimf_unstrict_char_parse(message, j, 58)?;
    let (m, l) = mailimf_minute_parse(message, k)?;
    match mailimf_unstrict_char_parse(message, l, 58) {
        Ok(p) => {
            let (sec, e) = mailimf_second_parse(message, p)?;
            Ok(((h, m, sec), e))
        },
        Err(_) => Ok(((h, m, 0), l)),
    }
}

/// The zone written after the sign that starts at `i`: a number, negated after `-`.
pub open spec fn spec_zone_number(s: Seq<u8>, i: int) -> Result<(i32, int), MailError> {
    let (neg, k) = match spec_unstrict_char(s, i, 43) {
        Ok(k) => (false, k),
        Err(_) => match spec_unstrict_char(s, i, 45) {
            Ok(k) => (true, k),
            Err(_) => (false, i),
        },
    };
    match spec_number(s, k) {
        Ok((v, j)) => {
            let z = if neg { vstd::wrapping::u32_specs::wrapping_mul(v, 0xffff_ffffu32) } else { v };
            Ok((z as i32, j))
        },
        Err(x) => Err(x),
    }
}

/// zone: `UT` and `GMT` (both `0`), the North American zone names (`EST` is
/// `-500`), or a signed number such as `+0100` (so `100`); the names are
/// case-sensitive.
pub open spec fn spec_zone(s: Seq<u8>, i: int) -> Result<(i32, int), MailError> {
    if 0 <= i && i + 1 < s.len() && s[i] == 85 && s[i + 1] == 84 {
        Ok((0i32, i + 2))
    } else if 0 <= i && i + 2 < s.len() {
        let c = s[i];
        if c == 71 {
            if s[i + 1] == 77 && s[i + 2] == 84 {
                if i + 3 < s.len() && (s[i + 3] == 43 || s[i + 3] == 45) {
                    spec_zone_number(s, i + 3)
                } else {
                    Ok((0i32, i + 3))
                }
            } else {
                Err(MailError::Parse)
            }
        } else if c == 69 || c == 67 || c == 77 || c == 80 {
            let base: int = if c == 69 { -5 } else if c == 67 { -6 } else if c == 77 { -7 } else { -8 };
            let d = s[i + 1];
            if (d == 83 || d == 68) && s[i + 2] == 84 {
                let z: int = if d == 68 { base + 1 } else { base };
                Ok(((z * 100) as i32, i + 3))
            } else {
                Err(MailError::Parse)
            }
        } else {
            spec_zone_number(s, i)
        }
    } else {
        spec_zone_number(s, i)
    }
}

fn zone_number(message: &[u8], indx: usize) -> (r: Result<(i32, usize), MailError>)
    requires
        indx <= message@.len(),
    ensures
        res_view(r) == spec_zone_number(message@, indx as int),
        r matches Ok((_, j)) ==> indx < j <= message@.len(),
{
    let (neg, k) = match mailimf_unstrict_char_parse(message, indx, 43) {
        Ok(k) => (false, k),
        Err(_) => match mailimf_unstrict_char_parse(message, indx, 45) {
            Ok(k) => (true, k),
            Err(_) => (false, indx),
        },
    };
    let (v, j) = mailimf_number_parse(message, k)?;
    let z: u32 = if neg { v.wrapping_mul(0xffff_ffff) } else { v };
    Ok((z as i32, j))
}

pub fn mailimf_zone_parse(message: &[u8], indx: usize) -> (r: Result<(i32, usize), MailError>)
    requires
        indx <= message@.len(),
    ensures
        res_view(r) == spec_zone(message@, indx as int),
        r matches Ok((_, j)) ==> indx < j <= message@.len(),
{
    let len = message.len();
    if len - indx > 1 && message[indx] == 85 && message[indx + 1] == 84 {
        return Ok((0, indx + 2));
    }
    if len - indx > 2 {
        let c = message[indx];
        if c == 71 {
            if message[indx + 1] == 77 && message[indx + 2] == 84 {
                if indx + 3 < len && (message[indx + 3] == 43 || message[indx + 3] == 45) {
                    return zone_number(message, indx + 3);
                } else {
                    return Ok((0, indx + 3));
                }
            } else {
                return Err(MailError::Parse);
            }
        } else if c == 69 || c == 67 || c == 77 || c == 80 {
            let base: i32 = if c == 69 { -5 } else if c == 67 { -6 } else if c == 77 { -7 } else { -8 };
            let d = message[indx + 1];
            if (d == 83 || d == 68) && message[indx + 2] == 84 {
                let z: i32 = if d == 68 { base + 1 } else { base };
                return Ok((z * 100, indx + 3));
            } else {
                return Err(MailError::Parse);
            }
        }
    }
    zone_number(message, indx)
}

/// time: a time of day and an optional zone (0 when it is missing).
pub open spec fn spec_time(s: Seq<u8>, i: int) -> Result<((i32, i32, i32, i32), int), MailError> {
    match spec_time_of_day(s, spec_skip_cfws(s, i)) {
        Err(x) => Err(x),
        Ok(((h, m, sec), j)) => {
            let k = spec_skip_fws(s, j);
            match spec_zone(s, k) {
                Ok((z, e)) => Ok(((h, m, sec, z), e)),
                Err(MailError::Parse) => Ok(((h, m, sec, 0i32), k)),
                Err(x) => Err(x),
            }
        },
    }
}

pub fn mailimf_time_parse(message: &[u8], indx: usize) -> (r: Result<((i32, i32, i32, i32), usize), MailError>)
    requires
        indx <= message@.len(),
    ensures
        res_view(r) == spec_time(message@, indx as int),
        r matches Ok((_, j)) ==> indx < j <= message@.len(),
{
    let k0 = skip_cfws(message, indx);
    let ((h, m, sec), j) = mailimf_time_of_day_parse(message, k0)?;
    let k = skip_fws(message, j);
    match mailimf_zone_parse(message, k) {
        Ok((z, e)) => Ok(((h, m, sec, z), e)),
        Err(MailError::Parse) => Ok(((h, m, sec, 0), k)),
        Err(x) => Err(x),
    }
}

/// date-time: an optional day of the week and comma, a date (day first, or
/// month first; one of the two is needed), FWS and a time.
pub open spec fn spec_date_time(s: Seq<u8>, i: int) -> Result<(mailimf_date_time, int), MailError> {
    let p = match spec_day_of_week(s, i) {
        Ok((_, j)) => match spec_unstrict_char(s, j, 44) {
            Ok(k) => k,
            Err(_) => j,
        },
        Err(_) => i,
    };
    let dr: Result<((i32, i32, i32), int), MailError> = match spec_date(s, p) {
        Ok((v, j)) => Ok((v, j)),
        Err(_) => spec_broken_date(s, p),
    };
    match dr {
        Err(x) => Err(x),
        Ok((dmy, q)) => match spec_fws(s, q) {
            Err(x) => Err(x),
            Ok(r) => match spec_time(s, r) {
                Err(x) => Err(x),
                Ok(((h, m, sec, z), e)) => Ok((mailimf_date_time {
                    dt_day: dmy.0,
                    dt_month: dmy.1,
                    dt_year: dmy.2,
                    dt_hour: h,
                    dt_min: m,
                    dt_sec: sec,
                    dt_zone: z,
                }, e)),
            },
        },
    }
}

/// Reads an RFC 2822 date and time.
pub fn mailimf_date_time_parse(message: &[u8], indx: usize) -> (r: Result<(mailimf_date_time, usize), MailError>)
    requires
        indx <= message@.len(),
    ensures
        res_view(r) == spec_date_time(message@, indx as int),
        r matches Ok((_, j)) ==> indx < j <= message@.len(),
        r matches Ok((d, _)) ==> 1 <= d.dt_month <= 12,
{
    let p = match mailimf_day_of_week_parse(message, indx) {
        Ok((_, j)) => match mailimf_unstrict_char_parse(message, j, 44) {
            Ok(k) => k,
            Err(_) => j,
        },
        Err(_) => indx,
    };
    let (dmy, q) = match mailimf_date_parse(message, p) {
        Ok((v, j)) => (v, j),
        Err(_) => mailimf_broken_date_parse(message, p)?,
    };
    let r = mailimf_fws_parse(message, q)?;
    let ((h, m, sec, z), e) = mailimf_time_parse(message, r)?;
    Ok((mailimf_date_time_new(dmy.0, dmy.1, dmy.2, h, m, sec, z), e))
}

/// The zone names read as numbers of hours and minutes: `UT` and `GMT` are
/// `+0000`, `EST` `-0500`, `EDT` `-0400`, `CST` `-0600`, `CDT` `-0500`, `MST`
/// `-0700`, `MDT` `-0600`, `PST` `-0800` and `PDT` `-0700`.
pub proof fn law_zone_names(s: Seq<u8>, i: int)
    requires
        0 <= i,
    ensures
        i + 2 <= s.len() && s[i] == 85 && s[i + 1] == 84
            ==> spec_zone(s, i) == Ok::<(i32, int), MailError>((0i32, i + 2)),
        i + 3 <= s.len() && s[i] == 71 && s[i + 1] == 77 && s[i + 2] == 84
            && !(i + 3 < s.len() && (s[i + 3] == 43 || s[i + 3] == 45))
            ==> spec_zone(s, i) == Ok::<(i32, int), MailError>((0i32, i + 3)),
        i + 3 <= s.len() && s[i] == 69 && s[i + 1] == 83 && s[i + 2] == 84
            ==> spec_zone(s, i) == Ok::<(i32, int), MailError>((-500i32, i + 3)),
        i + 3 <= s.len() && s[i] == 69 && s[i + 1] == 68 && s[i + 2] == 84
            ==> spec_zone(s, i) == Ok::<(i32, int), MailError>((-400i32, i + 3)),
        i + 3 <= s.len() && s[i] == 67 && s[i + 1] == 83 && s[i + 2] == 84
            ==> spec_zone(s, i) == Ok::<(i32, int), MailError>((-600i32, i + 3)),
        i + 3 <= s.len() && s[i] == 67 && s[i + 1] == 68 && s[i + 2] == 84
            ==> spec_zone(s, i) == Ok::<(i32, int), MailError>((-500i32, i + 3)),
        i + 3 <= s.len() && s[i] == 77 && s[i + 1] == 83 && s[i + 2] == 84
            ==> spec_zone(s, i) == Ok::<(i32, int), MailError>((-700i32, i + 3)),
        i + 3 <= s.len() && s[i] == 77 && s[i + 1] == 68 && s[i + 2] == 84
            ==> spec_zone(s, i) == Ok::<(i32, int), MailError>((-600i32, i + 3)),
        i + 3 <= s.len() && s[i] == 80 && s[i + 1] == 83 && s[i + 2] == 84
            ==> spec_zone(s, i) == Ok::<(i32, int), MailError>((-800i32, i + 3)),
        i + 3 <= s.len() && s[i] == 80 && s[i + 1] == 68 && s[i + 2] == 84
            ==> spec_zone(s, i) == Ok::<(i32, int), MailError>((-700i32, i + 3)),
{
}

} // verus!
