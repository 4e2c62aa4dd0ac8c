//! What the date parser reads back of a date that the writer wrote.

use vstd::prelude::*;
use crate::MailError;
use crate::chars::{spec_is_digit, spec_to_upper};
use crate::lex::{at, spec_char, spec_crlf, spec_wsp_end, spec_fws, spec_skip_fws, spec_comment,
    spec_fws_comment, spec_comments_end, spec_cfws, spec_skip_cfws, spec_unstrict_char,
    spec_digits_end, spec_digits_value, spec_number, spec_number_step, spec_token_ci, spec_ci_eq,
    spec_ci_prefix};
use crate::date::{day_name, month_name, spec_day_name, spec_month_name, spec_guess_day_name, spec_guess_month,
    spec_zone, spec_zone_number, spec_date_time, spec_time, spec_time_of_day, spec_date, spec_month,
    spec_cfws_number, spec_int_number, mailimf_date_time};
use crate::imf_write::{dec_digits, zeros, fmt_zone, fmt_two, fmt_int, abs_int, date_text, date_writable};

verus! {

/// A byte after which white space or a comment cannot go on.
pub open spec fn plain_stop(c: u8) -> bool {
    c != 32 && c != 9 && c != 40 && c != 13 && c != 10
}

proof fn lemma_skip_at(s: Seq<u8>, i: int)
    requires
        0 <= i < s.len(),
        plain_stop(s[i]),
    ensures
        spec_fws(s, i) is Err,
        spec_skip_fws(s, i) == i,
        spec_skip_cfws(s, i) == i,
{
    assert(spec_wsp_end(s, i) == i);
    assert(spec_crlf(s, i) is Err);
    assert(spec_comment(s, i) is Err);
    assert(spec_fws_comment(s, i) is Err);
    assert(spec_comments_end(s, i) == i);
}

proof fn lemma_skip_space(s: Seq<u8>, i: int)
    requires
        0 <= i,
        i + 1 < s.len(),
        s[i] == 32,
        plain_stop(s[i + 1]),
    ensures
        spec_fws(s, i) == Ok::<int, MailError>(i + 1),
        spec_skip_fws(s, i) == i + 1,
        spec_skip_cfws(s, i) == i + 1,
{
    assert(spec_wsp_end(s, i + 1) == i + 1);
    assert(spec_wsp_end(s, i) == i + 1);
    assert(spec_crlf(s, i + 1) is Err);
    assert(spec_fws(s, i) == Ok::<int, MailError>(i + 1));
    assert(spec_comment(s, i + 1) is Err);
    assert(spec_fws_comment(s, i) is Err);
    assert(spec_comments_end(s, i) == i);
}

proof fn lemma_dec_digits(n: nat)
    ensures
        dec_digits(n).len() >= 1,
        forall|k: int| 0 <= k < dec_digits(n).len() ==> #[trigger] spec_is_digit(dec_digits(n)[k]),
        n < 100 ==> dec_digits(n).len() <= 2,
        n < 1000 ==> dec_digits(n).len() <= 3,
        n < 10000 ==> dec_digits(n).len() <= 4,
        n < 100000 ==> dec_digits(n).len() <= 5,
        n < 10 ==> dec_digits(n).len() == 1,
        10 <= n < 100 ==> dec_digits(n).len() == 2,
    decreases n,
{
    if n >= 10 {
        lemma_dec_digits(n / 10);
        assert forall|k: int| 0 <= k < dec_digits(n).len() implies #[trigger] spec_is_digit(dec_digits(n)[k]) by {
            if k < dec_digits(n / 10).len() {
                assert(dec_digits(n)[k] == dec_digits(n / 10)[k]);
            }
        }
    }
}

proof fn lemma_digits_end_at(s: Seq<u8>, i: int, e: int)
    requires
        0 <= i <= e <= s.len(),
        forall|k: int| i <= k < e ==> #[trigger] spec_is_digit(s[k]),
        e == s.len() || !spec_is_digit(s[e]),
    ensures
        spec_digits_end(s, i) == e,
    decreases e - i,
{
    if i < e {
        lemma_digits_end_at(s, i + 1, e);
    }
}

proof fn lemma_zeros_value(s: Seq<u8>, i: int, k: int)
    requires
        0 <= i <= k <= s.len(),
        forall|m: int| i <= m < k ==> #[trigger] s[m] == 48u8,
    ensures
        spec_digits_value(s, i, k) == 0,
    decreases k - i,
{
    if i < k {
        lemma_zeros_value(s, i, k - 1);
        assert(spec_number_step(0u32, 48u8) == 0u32);
    }
}

proof fn lemma_dec_value(s: Seq<u8>, i: int, a: int, n: nat)
    requires
        0 <= i <= a,
        a + dec_digits(n).len() <= s.len(),
        s.subrange(a, a + dec_digits(n).len()) == dec_digits(n),
        spec_digits_value(s, i, a) == 0,
        n < 100000,
    ensures
        spec_digits_value(s, i, a + dec_digits(n).len()) == n,
    decreases n,
{
    if n < 10 {
        assert(s[a] == dec_digits(n)[0]);
        assert(spec_number_step(0u32, (48 + n) as u8) == n);
    } else {
        let d = dec_digits(n / 10);
        assert(dec_digits(n) == d + seq![(48 + n % 10) as u8]);
        assert(s.subrange(a, a + d.len()) =~= d) by {
            assert forall|m: int| 0 <= m < d.len() implies s.subrange(a, a + d.len())[m] == d[m] by {
                assert(s.subrange(a, a + dec_digits(n).len())[m] == dec_digits(n)[m]);
            }
        }
        lemma_dec_value(s, i, a, n / 10);
        let e = a + dec_digits(n).len();
        assert(s[e - 1] == dec_digits(n)[dec_digits(n).len() - 1]);
        let v = (n / 10) as u32;
        assert(v * 10 <= 0xffff_ffff);
        assert(vstd::wrapping::u32_specs::wrapping_mul(v, 10) == v * 10) by {
            assert((v as nat * 10nat) % 4294967296nat == v * 10);
        }
        assert(spec_number_step(v, (48 + n % 10) as u8) == n);
    }
}

/// `n` written with `k` leading zeros is read back as `n`.
proof fn lemma_number_back(x: Seq<u8>, k: int, n: nat, rest: Seq<u8>)
    requires
        0 <= k,
        n < 100000,
        rest.len() == 0 || !spec_is_digit(rest[0]),
    ensures
        spec_number(x + zeros(k) + dec_digits(n) + rest, x.len() as int)
            == Ok::<(u32, int), MailError>((n as u32, x.len() + k + dec_digits(n).len())),
{
    let s = x + zeros(k) + dec_digits(n) + rest;
    let i = x.len() as int;
    let a = i + k;
    let e = a + dec_digits(n).len();
    lemma_dec_digits(n);
    assert(zeros(k).len() == k);
    assert forall|m: int| i <= m < a implies #[trigger] s[m] == 48u8 by {
        assert(s[m] == zeros(k)[m - i]);
    }
    assert forall|m: int| i <= m < e implies #[trigger] spec_is_digit(s[m]) by {
        if m < a {
            assert(s[m] == 48u8);
        } else {
            assert(s[m] == dec_digits(n)[m - a]);
        }
    }
    if e < s.len() {
        assert(s[e] == rest[0]);
    }
    lemma_digits_end_at(s, i, e);
    lemma_zeros_value(s, i, a);
    assert(s.subrange(a, e) =~= dec_digits(n));
    lemma_dec_value(s, i, a, n);
}

proof fn lemma_ci_prefix_same(s: Seq<u8>, i: int, t: Seq<u8>)
    requires
        0 <= i,
        i + t.len() <= s.len(),
        s.subrange(i, i + t.len()) == t,
    ensures
        spec_ci_prefix(s, i, t),
{
    assert forall|k: int| 0 <= k < t.len() implies #[trigger] spec_ci_eq(s[i + k], t[k]) by {
        assert(s.subrange(i, i + t.len())[k] == s[i + k]);
    }
}

proof fn lemma_day_name_back(s: Seq<u8>, i: int, g: i32)
    requires
        0 <= g <= 7,
        0 <= i,
        i + 3 <= s.len(),
        s.subrange(i, i + 3) == day_name(g),
    ensures
        spec_day_name(s, i) matches Ok((_, j)) && j == i + 3,
{
    assert(day_name(g).len() == 3);
    assert(s[i] == day_name(g)[0] && s[i + 1] == day_name(g)[1] && s[i + 2] == day_name(g)[2]) by {
        assert(s.subrange(i, i + 3)[0] == s[i]);
        assert(s.subrange(i, i + 3)[1] == s[i + 1]);
        assert(s.subrange(i, i + 3)[2] == s[i + 2]);
    }
    let gg = spec_guess_day_name(s, i);
    assert(1 <= gg <= 7 && day_name(gg) == day_name(g));
    lemma_ci_prefix_same(s, i, day_name(g));
}

proof fn lemma_month_name_back(s: Seq<u8>, i: int, m: i32)
    requires
        1 <= m <= 12,
        0 <= i,
        i + 3 <= s.len(),
        s.subrange(i, i + 3) == month_name(m),
    ensures
        spec_month_name(s, i) == Ok::<(i32, int), MailError>((m, i + 3)),
{
    assert(month_name(m).len() == 3);
    assert(s[i] == month_name(m)[0] && s[i + 1] == month_name(m)[1] && s[i + 2] == month_name(m)[2]) by {
        assert(s.subrange(i, i + 3)[0] == s[i]);
        assert(s.subrange(i, i + 3)[1] == s[i + 1]);
        assert(s.subrange(i, i + 3)[2] == s[i + 2]);
    }
    assert(spec_guess_month(s, i) == m);
    lemma_ci_prefix_same(s, i, month_name(m));
}

proof fn lemma_neg_wrap(v: u32)
    requires
        1 <= v <= 9999,
    ensures
        (vstd::wrapping::u32_specs::wrapping_mul(v, 0xffff_ffffu32) as i32) == -(v as int),
{
    let vi = v as int;
    assert(vi * 4294967295 == (vi - 1) * 4294967296 + (4294967296 - vi));
    vstd::arithmetic::div_mod::lemma_fundamental_div_mod_converse(vi * 4294967295, 4294967296, vi - 1, 4294967296 - vi);
    let w = vstd::wrapping::u32_specs::wrapping_mul(v, 0xffff_ffffu32);
    assert(w == 4294967296 - vi);
    assert(w as i32 == -(v as i32)) by (bit_vector)
        requires
            w == 4294967296 - v,
            1 <= v <= 9999,
    ;
}

proof fn lemma_zone_back(x: Seq<u8>, z: i32)
    requires
        -9999 <= z <= 9999,
    ensures
        spec_zone(x + fmt_zone(z as int), x.len() as int)
            == Ok::<(i32, int), MailError>((z, (x + fmt_zone(z as int)).len() as int)),
{
    let n = abs_int(z as int);
    let d = dec_digits(n);
    lemma_dec_digits(n);
    let sign: Seq<u8> = if z < 0 { seq![45u8] } else { seq![43u8] };
    let k = 4 - d.len();
    let s = x + fmt_zone(z as int);
    let i = x.len() as int;
    assert(fmt_zone(z as int) == sign + zeros(k) + d);
    assert(zeros(k).len() == k);
    assert(s.len() == i + 5);
    assert(s =~= (x + sign) + zeros(k) + d + Seq::<u8>::empty());
    assert(s[i] == sign[0]);
    lemma_skip_at(s, i);
    lemma_number_back(x + sign, k, n, Seq::<u8>::empty());
    if z < 0 {
        assert(spec_unstrict_char(s, i, 43) is Err);
        assert(spec_unstrict_char(s, i, 45) == Ok::<int, MailError>(i + 1));
        lemma_neg_wrap(n as u32);
    } else {
        assert(spec_unstrict_char(s, i, 43) == Ok::<int, MailError>(i + 1));
    }
}

/// The fields of a date that the writer puts down so that the parser reads
/// them back: numbers that are not negative and fit the digits written.
pub open spec fn date_round_trips(d: mailimf_date_time) -> bool {
    &&& date_writable(d)
    &&& 0 <= d.dt_day <= 99999
    &&& 0 <= d.dt_year <= 99999
    &&& 0 <= d.dt_hour <= 99
    &&& 0 <= d.dt_min <= 99
    &&& 0 <= d.dt_sec <= 99
    &&& -9999 <= d.dt_zone <= 9999
}

proof fn lemma_two_digits(n: i32)
    requires
        0 <= n <= 99,
    ensures
        fmt_two(n as int) == zeros(2 - dec_digits(n as nat).len()) + dec_digits(n as nat),
        (zeros(2 - dec_digits(n as nat).len()) + dec_digits(n as nat)).len() == 2,
        2 - dec_digits(n as nat).len() >= 0,
{
    lemma_dec_digits(n as nat);
    assert(zeros(2 - dec_digits(n as nat).len()).len() == 2 - dec_digits(n as nat).len());
}

proof fn lemma_shift(s: Seq<u8>, a: Seq<u8>, p: Seq<u8>, r: Seq<u8>)
    requires
        s == (a + p) + r,
    ensures
        s == a + (p + r),
        s == a + zeros(0) + p + r,
{
    assert((a + p) + r =~= a + (p + r));
    assert(zeros(0) =~= Seq::<u8>::empty());
    assert((a + p) + r =~= a + zeros(0) + p + r);
}

proof fn lemma_number_at(s: Seq<u8>, i: int, k: int, n: nat, e: int)
    requires
        0 <= i,
        0 <= k,
        n < 100000,
        e == i + k + dec_digits(n).len(),
        e <= s.len(),
        forall|m: int| i <= m < i + k ==> #[trigger] s[m] == 48u8,
        s.subrange(i + k, e) == dec_digits(n),
        e == s.len() || !spec_is_digit(s[e]),
    ensures
        spec_number(s, i) == Ok::<(u32, int), MailError>((n as u32, e)),
{
    let x = s.take(i);
    let rest = s.skip(e);
    assert(zeros(k).len() == k);
    assert(s =~= x + zeros(k) + dec_digits(n) + rest) by {
        assert forall|m: int| 0 <= m < s.len() implies s[m] == (x + zeros(k) + dec_digits(n) + rest)[m] by {
            if i + k <= m < e {
                assert(s.subrange(i + k, e)[m - i - k] == s[m]);
            }
        }
    }
    if e < s.len() {
        assert(rest[0] == s[e]);
    }
    lemma_number_back(x, k, n, rest);
}

proof fn lemma_piece(s: Seq<u8>, t: Seq<u8>, p: Seq<u8>, r: Seq<u8>)
    requires
        s == t + (p + r),
    ensures
        s.subrange(t.len() as int, (t.len() + p.len()) as int) == p,
        r.len() > 0 ==> s[(t.len() + p.len()) as int] == r[0],
        s.len() == t.len() + p.len() + r.len(),
{
    assert(s.subrange(t.len() as int, (t.len() + p.len()) as int) =~= p);
}

/// Where the day ends in the text of a date.
pub open spec fn day_end(d: mailimf_date_time) -> int {
    (5 + dec_digits(d.dt_day as nat).len()) as int
}

/// Where the time of day starts in the text of a date.
pub open spec fn time_start(d: mailimf_date_time) -> int {
    day_end(d) + 6 + dec_digits(d.dt_year as nat).len()
}

#[verifier::rlimit(100)]
#[verifier::spinoff_prover]
proof fn lemma_date_layout(d: mailimf_date_time)
    requires
        date_round_trips(d),
    ensures
        ({
            let s = date_text(d);
            let e1 = day_end(d);
            let r = time_start(d);
            &&& s.len() == r + 14
            &&& s.subrange(0, 3) == day_name(crate::imf_write::spec_day_of_week(d) as i32)
            &&& s[3] == 44u8 && s[4] == 32u8
            &&& s.subrange(5, e1) == dec_digits(d.dt_day as nat)
            &&& s[e1] == 32u8
            &&& s.subrange(e1 + 1, e1 + 4) == month_name(d.dt_month)
            &&& s[e1 + 4] == 32u8
            &&& s.subrange(e1 + 5, r - 1) == dec_digits(d.dt_year as nat)
            &&& s[r - 1] == 32u8
            &&& s.subrange(r, r + 2) == fmt_two(d.dt_hour as int)
            &&& s[r + 2] == 58u8
            &&& s.subrange(r + 3, r + 5) == fmt_two(d.dt_min as int)
            &&& s[r + 5] == 58u8
            &&& s.subrange(r + 6, r + 8) == fmt_two(d.dt_sec as int)
            &&& s[r + 8] == 32u8
            &&& s.subrange(r + 9, r + 14) == fmt_zone(d.dt_zone as int)
        }),
{
    let s = date_text(d);
    let g = crate::imf_write::spec_day_of_week(d) as i32;
    let dn = day_name(g);
    let fd = dec_digits(d.dt_day as nat);
    let mn = month_name(d.dt_month);
    let fy = dec_digits(d.dt_year as nat);
    lemma_dec_digits(d.dt_day as nat);
    lemma_dec_digits(d.dt_year as nat);
    lemma_two_digits(d.dt_hour);
    lemma_two_digits(d.dt_min);
    lemma_two_digits(d.dt_sec);
    let fh = fmt_two(d.dt_hour as int);
    let fm = fmt_two(d.dt_min as int);
    let fs = fmt_two(d.dt_sec as int);
    let fz = fmt_zone(d.dt_zone as int);
    assert(0 <= g <= 6);
    assert(dn.len() == 3);
    assert(mn.len() == 3);
    assert(fmt_int(d.dt_day as int) == fd);
    assert(fmt_int(d.dt_year as int) == fy);
    let lz = dec_digits(abs_int(d.dt_zone as int));
    lemma_dec_digits(abs_int(d.dt_zone as int));
    assert(fz.len() == 5 && (fz[0] == 43u8 || fz[0] == 45u8)) by {
        assert(zeros(4 - lz.len()).len() == 4 - lz.len());
    }
    let sp = seq![32u8];
    let co = seq![58u8];
    let t1 = dn + seq![44u8, 32u8];
    let t2 = t1 + fd;
    let t3 = t2 + sp;
    let t4 = t3 + mn;
    let t5 = t4 + sp;
    let t6 = t5 + fy;
    let t7 = t6 + sp;
    let t8 = t7 + fh;
    let t9 = t8 + co;
    let t10 = t9 + fm;
    let t11 = t10 + co;
    let t12 = t11 + fs;
    let t13 = t12 + sp;
    assert(s == t13 + fz);
    let r12 = sp + fz;
    let r11 = fs + r12;
    let r10 = co + r11;
    let r9 = fm + r10;
    let r8 = co + r9;
    let r7 = fh + r8;
    let r6 = sp + r7;
    let r5 = fy + r6;
    let r4 = sp + r5;
    let r3 = mn + r4;
    let r2 = sp + r3;
    let r1 = fd + r2;
    lemma_shift(s, t12, sp, fz);
    lemma_shift(s, t11, fs, r12);
    lemma_shift(s, t10, co, r11);
    lemma_shift(s, t9, fm, r10);
    lemma_shift(s, t8, co, r9);
    lemma_shift(s, t7, fh, r8);
    lemma_shift(s, t6, sp, r7);
    lemma_shift(s, t5, fy, r6);
    lemma_shift(s, t4, sp, r5);
    lemma_shift(s, t3, mn, r4);
    lemma_shift(s, t2, sp, r3);
    lemma_shift(s, t1, fd, r2);
    lemma_shift(s, dn, seq![44u8, 32u8], r1);
    assert(s == dn + (seq![44u8, 32u8] + r1));
    let e1: int = t2.len() as int;
    let e2: int = t6.len() as int;
    let r: int = t7.len() as int;
    assert(t1.len() == 5);
    assert(s.len() == r + 14);
    lemma_piece(s, dn, seq![44u8, 32u8], r1);
    assert(s.subrange(0, 3) =~= dn) by {
        assert(s.take(3) =~= dn);
    }
    lemma_piece(s, t1, fd, r2);
    lemma_piece(s, t3, mn, r4);
    lemma_piece(s, t5, fy, r6);
    lemma_piece(s, t7, fh, r8);
    lemma_piece(s, t9, fm, r10);
    lemma_piece(s, t11, fs, r12);
    assert(fz + Seq::<u8>::empty() =~= fz);
    lemma_piece(s, t13, fz, Seq::<u8>::empty());
    lemma_piece(s, t2, sp, r3);
    lemma_piece(s, t4, sp, r5);
    lemma_piece(s, t6, sp, r7);
    lemma_piece(s, t8, co, r9);
    lemma_piece(s, t10, co, r11);
    lemma_piece(s, t12, sp, fz);
    assert(s[3] == 44u8 && s[4] == 32u8) by {
        assert(s.subrange(3, 5) == seq![44u8, 32u8]);
        assert(s.subrange(3, 5)[0] == s[3]);
        assert(s.subrange(3, 5)[1] == s[4]);
    }
}

proof fn lemma_zeros_then(s: Seq<u8>, i: int, k: int, n: nat)
    requires
        0 <= i,
        0 <= k,
        i + k + dec_digits(n).len() <= s.len(),
        s.subrange(i, i + k + dec_digits(n).len()) == zeros(k) + dec_digits(n),
    ensures
        forall|m: int| i <= m < i + k ==> #[trigger] s[m] == 48u8,
        s.subrange(i + k, i + k + dec_digits(n).len()) == dec_digits(n),
        spec_is_digit(s[i]),
{
    let e = i + k + dec_digits(n).len();
    lemma_dec_digits(n);
    assert(zeros(k).len() == k);
    assert forall|m: int| i <= m < i + k implies #[trigger] s[m] == 48u8 by {
        assert(s.subrange(i, e)[m - i] == s[m]);
        assert((zeros(k) + dec_digits(n))[m - i] == zeros(k)[m - i]);
    }
    assert(s.subrange(i + k, e) =~= dec_digits(n)) by {
        assert forall|m: int| 0 <= m < dec_digits(n).len() implies s.subrange(i + k, e)[m] == dec_digits(n)[m] by {
            assert(s.subrange(i, e)[k + m] == s[i + k + m]);
            assert((zeros(k) + dec_digits(n))[k + m] == dec_digits(n)[m]);
        }
    }
    assert(s.subrange(i, e)[0] == s[i]);
    if k == 0 {
        assert(s[i] == dec_digits(n)[0]);
    }
}

proof fn lemma_cfws_number_at(s: Seq<u8>, i: int, n: nat, e: int)
    requires
        0 <= i,
        n <= 99999,
        e == i + 1 + dec_digits(n).len(),
        e < s.len(),
        s[i] == 32u8,
        s.subrange(i + 1, e) == dec_digits(n),
        !spec_is_digit(s[e]),
    ensures
        spec_cfws_number(s, i) == Ok::<(i32, int), MailError>((n as i32, e)),
{
    lemma_dec_digits(n);
    assert(s[i + 1] == dec_digits(n)[0]) by {
        assert(s.subrange(i + 1, e)[0] == s[i + 1]);
    }
    assert(spec_is_digit(dec_digits(n)[0]));
    lemma_skip_space(s, i);
    lemma_number_at(s, i + 1, 0, n, e);
}

proof fn lemma_month_at(s: Seq<u8>, i: int, m: i32)
    requires
        0 <= i,
        1 <= m <= 12,
        i + 4 <= s.len(),
        s[i] == 32u8,
        s.subrange(i + 1, i + 4) == month_name(m),
    ensures
        spec_month(s, i) == Ok::<(i32, int), MailError>((m, i + 4)),
{
    assert(month_name(m).len() == 3);
    assert(s[i + 1] == month_name(m)[0]) by {
        assert(s.subrange(i + 1, i + 4)[0] == s[i + 1]);
    }
    lemma_skip_space(s, i);
    lemma_month_name_back(s, i + 1, m);
}

#[verifier::rlimit(100)]
#[verifier::spinoff_prover]
proof fn lemma_dow_at(s: Seq<u8>, g: i32)
    requires
        0 <= g <= 7,
        5 < s.len(),
        s.subrange(0, 3) == day_name(g),
        s[3] == 44u8,
    ensures
        crate::date::spec_day_of_week(s, 0) matches Ok((_, j)) && j == 3,
        spec_unstrict_char(s, 3, 44) == Ok::<int, MailError>(4),
{
    assert(day_name(g).len() == 3);
    assert(s[0] == day_name(g)[0]) by {
        assert(s.subrange(0, 3)[0] == s[0]);
    }
    lemma_skip_at(s, 0);
    lemma_day_name_back(s, 0, g);
    lemma_skip_at(s, 3);
}

#[verifier::rlimit(100)]
#[verifier::spinoff_prover]
proof fn lemma_date_at(s: Seq<u8>, day: i32, m: i32, y: i32, e1: int, r: int)
    requires
        1 <= m <= 12,
        0 <= day <= 99999,
        0 <= y <= 99999,
        e1 == 5 + dec_digits(day as nat).len(),
        r == e1 + 6 + dec_digits(y as nat).len(),
        r < s.len(),
        s[4] == 32u8,
        s.subrange(5, e1) == dec_digits(day as nat),
        s[e1] == 32u8,
        s.subrange(e1 + 1, e1 + 4) == month_name(m),
        s[e1 + 4] == 32u8,
        s.subrange(e1 + 5, r - 1) == dec_digits(y as nat),
        s[r - 1] == 32u8,
    ensures
        spec_date(s, 4) == Ok::<((i32, i32, i32), int), MailError>(((day, m, y), r - 1)),
{
    lemma_cfws_number_at(s, 4, day as nat, e1);
    lemma_month_at(s, e1, m);
    lemma_cfws_number_at(s, e1 + 4, y as nat, r - 1);
}

#[verifier::rlimit(100)]
#[verifier::spinoff_prover]
proof fn lemma_head_at(s: Seq<u8>, g: i32, day: i32, m: i32, y: i32, e1: int, r: int)
    requires
        0 <= g <= 7,
        1 <= m <= 12,
        0 <= day <= 99999,
        0 <= y <= 99999,
        e1 == 5 + dec_digits(day as nat).len(),
        r == e1 + 6 + dec_digits(y as nat).len(),
        r < s.len(),
        s.subrange(0, 3) == day_name(g),
        s[3] == 44u8 && s[4] == 32u8,
        s.subrange(5, e1) == dec_digits(day as nat),
        s[e1] == 32u8,
        s.subrange(e1 + 1, e1 + 4) == month_name(m),
        s[e1 + 4] == 32u8,
        s.subrange(e1 + 5, r - 1) == dec_digits(y as nat),
        s[r - 1] == 32u8,
        spec_is_digit(s[r]),
    ensures
        crate::date::spec_day_of_week(s, 0) matches Ok((_, j)) && j == 3,
        spec_unstrict_char(s, 3, 44) == Ok::<int, MailError>(4),
        spec_date(s, 4) == Ok::<((i32, i32, i32), int), MailError>(((day, m, y), r - 1)),
        spec_fws(s, r - 1) == Ok::<int, MailError>(r),
{
    lemma_dow_at(s, g);
    lemma_date_at(s, day, m, y, e1, r);
    lemma_dec_digits(y as nat);
    lemma_skip_space(s, r - 1);
}

proof fn lemma_two_at(s: Seq<u8>, i: int, n: i32)
    requires
        0 <= i,
        0 <= n <= 99,
        i + 2 < s.len(),
        s.subrange(i, i + 2) == fmt_two(n as int),
        !spec_is_digit(s[i + 2]),
    ensures
        spec_int_number(s, i) == Ok::<(i32, int), MailError>((n, i + 2)),
        spec_is_digit(s[i]),
{
    lemma_two_digits(n);
    let k: int = 2 - dec_digits(n as nat).len();
    lemma_zeros_then(s, i, k, n as nat);
    lemma_number_at(s, i, k, n as nat, i + 2);
}

#[verifier::rlimit(100)]
#[verifier::spinoff_prover]
proof fn lemma_time_of_day_at(s: Seq<u8>, r: int, h: i32, mi: i32, sec: i32)
    requires
        0 <= r,
        r + 9 < s.len(),
        0 <= h <= 99,
        0 <= mi <= 99,
        0 <= sec <= 99,
        s.subrange(r, r + 2) == fmt_two(h as int),
        s[r + 2] == 58u8,
        s.subrange(r + 3, r + 5) == fmt_two(mi as int),
        s[r + 5] == 58u8,
        s.subrange(r + 6, r + 8) == fmt_two(sec as int),
        s[r + 8] == 32u8,
    ensures
        spec_time_of_day(s, r) == Ok::<((i32, i32, i32), int), MailError>(((h, mi, sec), r + 8)),
        spec_skip_cfws(s, r) == r,
{
    lemma_two_at(s, r, h);
    lemma_two_at(s, r + 3, mi);
    lemma_two_at(s, r + 6, sec);
    lemma_skip_at(s, r);
    lemma_skip_at(s, r + 2);
    lemma_skip_at(s, r + 5);
}

#[verifier::rlimit(100)]
#[verifier::spinoff_prover]
proof fn lemma_tail_at(s: Seq<u8>, r: int, h: i32, mi: i32, sec: i32, z: i32)
    requires
        0 <= r,
        s.len() == r + 14,
        0 <= h <= 99,
        0 <= mi <= 99,
        0 <= sec <= 99,
        -9999 <= z <= 9999,
        s.subrange(r, r + 2) == fmt_two(h as int),
        s[r + 2] == 58u8,
        s.subrange(r + 3, r + 5) == fmt_two(mi as int),
        s[r + 5] == 58u8,
        s.subrange(r + 6, r + 8) == fmt_two(sec as int),
        s[r + 8] == 32u8,
        s.subrange(r + 9, r + 14) == fmt_zone(z as int),
    ensures
        spec_time(s, r) == Ok::<((i32, i32, i32, i32), int), MailError>(((h, mi, sec, z), r + 14)),
{
    lemma_time_of_day_at(s, r, h, mi, sec);
    lemma_dec_digits(abs_int(z as int));
    assert(fmt_zone(z as int)[0] == 43u8 || fmt_zone(z as int)[0] == 45u8);
    assert(s[r + 9] == fmt_zone(z as int)[0]) by {
        assert(s.subrange(r + 9, r + 14)[0] == s[r + 9]);
    }
    lemma_skip_space(s, r + 8);
    assert(s =~= s.take(r + 9) + fmt_zone(z as int)) by {
        assert forall|m: int| r + 9 <= m < s.len() implies s[m] == fmt_zone(z as int)[m - r - 9] by {
            assert(s.subrange(r + 9, r + 14)[m - r - 9] == s[m]);
        }
    }
    lemma_zone_back(s.take(r + 9), z);
}

#[verifier::rlimit(100)]
#[verifier::spinoff_prover]
proof fn lemma_compose(s: Seq<u8>, d: mailimf_date_time, r: int)
    requires
        crate::date::spec_day_of_week(s, 0) matches Ok((_, j)) && j == 3,
        spec_unstrict_char(s, 3, 44) == Ok::<int, MailError>(4),
        spec_date(s, 4) == Ok::<((i32, i32, i32), int), MailError>(((d.dt_day, d.dt_month, d.dt_year), r - 1)),
        spec_fws(s, r - 1) == Ok::<int, MailError>(r),
        spec_time(s, r) == Ok::<((i32, i32, i32, i32), int), MailError>(
            ((d.dt_hour, d.dt_min, d.dt_sec, d.dt_zone), s.len() as int)),
    ensures
        spec_date_time(s, 0) == Ok::<(mailimf_date_time, int), MailError>((d, s.len() as int)),
{
}

#[verifier::rlimit(100)]
#[verifier::spinoff_prover]
proof fn lemma_head_of(d: mailimf_date_time)
    requires
        date_round_trips(d),
    ensures
        crate::date::spec_day_of_week(date_text(d), 0) matches Ok((_, j)) && j == 3,
        spec_unstrict_char(date_text(d), 3, 44) == Ok::<int, MailError>(4),
        spec_date(date_text(d), 4) == Ok::<((i32, i32, i32), int), MailError>(
            ((d.dt_day, d.dt_month, d.dt_year), time_start(d) - 1)),
        spec_fws(date_text(d), time_start(d) - 1) == Ok::<int, MailError>(time_start(d)),
{
    let s = date_text(d);
    let r = time_start(d);
    lemma_date_layout(d);
    lemma_dec_digits(d.dt_year as nat);
    lemma_two_digits(d.dt_hour);
    lemma_zeros_then(s, r, 2 - dec_digits(d.dt_hour as nat).len(), d.dt_hour as nat);
    assert(0 <= crate::imf_write::spec_day_of_week(d) <= 6);
    lemma_head_at(s, crate::imf_write::spec_day_of_week(d) as i32, d.dt_day, d.dt_month, d.dt_year,
        day_end(d), r);
}

#[verifier::rlimit(100)]
#[verifier::spinoff_prover]
proof fn lemma_tail_of(d: mailimf_date_time)
    requires
        date_round_trips(d),
    ensures
        spec_time(date_text(d), time_start(d)) == Ok::<((i32, i32, i32, i32), int), MailError>(
            ((d.dt_hour, d.dt_min, d.dt_sec, d.dt_zone), date_text(d).len() as int)),
{
    lemma_date_layout(d);
    lemma_tail_at(date_text(d), time_start(d), d.dt_hour, d.dt_min, d.dt_sec, d.dt_zone);
}

/// A date that is written and then read back gives the same date, the whole
/// text being read: for a date whose day of the week the writer can compute,
/// whose numbers are not negative and fit the digits written, and whose zone
/// lies within four digits.
pub proof fn law_date_time_round_trip(d: mailimf_date_time)
    requires
        date_round_trips(d),
    ensures
        spec_date_time(date_text(d), 0) == Ok::<(mailimf_date_time, int), MailError>((d, date_text(d).len() as int)),
{
    lemma_head_of(d);
    lemma_tail_of(d);
    lemma_compose(date_text(d), d, time_start(d));
}

/// No byte of `s` is a CR or an LF.
pub open spec fn no_line_break(s: Seq<u8>) -> bool {
    forall|m: int| 0 <= m < s.len() ==> #[trigger] s[m] != 10 && s[m] != 13
}

proof fn lemma_no_line_break_concat(a: Seq<u8>, b: Seq<u8>)
    requires
        no_line_break(a),
        no_line_break(b),
    ensures
        no_line_break(a + b),
{
    assert forall|m: int| 0 <= m < (a + b).len() implies #[trigger] (a + b)[m] != 10 && (a + b)[m] != 13 by {
        if m < a.len() {
            assert((a + b)[m] == a[m]);
        } else {
            assert((a + b)[m] == b[m - a.len()]);
        }
    }
}

proof fn lemma_digits_plain(k: int, n: nat)
    ensures
        no_line_break(dec_digits(n)),
        no_line_break(zeros(k)),
        no_line_break(zeros(k) + dec_digits(n)),
{
    lemma_dec_digits(n);
    assert forall|m: int| 0 <= m < dec_digits(n).len() implies #[trigger] dec_digits(n)[m] != 10 && dec_digits(n)[m] != 13 by {
        assert(spec_is_digit(dec_digits(n)[m]));
    }
    lemma_no_line_break_concat(zeros(k), dec_digits(n));
}

/// The text of a date that can be written holds no line break and is short.
pub(crate) proof fn lemma_date_text_plain(d: mailimf_date_time)
    requires
        date_round_trips(d),
    ensures
        no_line_break(date_text(d)),
        date_text(d).len() <= 998,
{
    lemma_date_layout(d);
    lemma_dec_digits(d.dt_day as nat);
    lemma_dec_digits(d.dt_year as nat);
    let g = crate::imf_write::spec_day_of_week(d) as i32;
    assert(0 <= g <= 6);
    let dn = day_name(g);
    let mn = month_name(d.dt_month);
    assert(no_line_break(dn)) by {
        assert(dn.len() == 3);
        assert(dn[0] != 10 && dn[1] != 10 && dn[2] != 10 && dn[0] != 13 && dn[1] != 13 && dn[2] != 13);
    }
    assert(no_line_break(mn)) by {
        assert(mn.len() == 3);
        assert(mn[0] != 10 && mn[1] != 10 && mn[2] != 10 && mn[0] != 13 && mn[1] != 13 && mn[2] != 13);
    }
    let fd = fmt_int(d.dt_day as int);
    let fy = fmt_int(d.dt_year as int);
    let fh = fmt_two(d.dt_hour as int);
    let fm = fmt_two(d.dt_min as int);
    let fs = fmt_two(d.dt_sec as int);
    let fz = fmt_zone(d.dt_zone as int);
    lemma_digits_plain(0, d.dt_day as nat);
    lemma_digits_plain(0, d.dt_year as nat);
    assert(fd == dec_digits(d.dt_day as nat));
    assert(fy == dec_digits(d.dt_year as nat));
    lemma_digits_plain(2 - dec_digits(d.dt_hour as nat).len(), d.dt_hour as nat);
    lemma_digits_plain(2 - dec_digits(d.dt_min as nat).len(), d.dt_min as nat);
    lemma_digits_plain(2 - dec_digits(d.dt_sec as nat).len(), d.dt_sec as nat);
    let lz = dec_digits(abs_int(d.dt_zone as int));
    let sign: Seq<u8> = if d.dt_zone < 0 { seq![45u8] } else { seq![43u8] };
    lemma_digits_plain(4 - lz.len(), abs_int(d.dt_zone as int));
    assert(no_line_break(sign)) by {
        assert(sign.len() == 1);
    }
    lemma_no_line_break_concat(sign, zeros(4 - lz.len()) + lz);
    assert(fz =~= sign + (zeros(4 - lz.len()) + lz));
    let sp = seq![32u8];
    let co = seq![58u8];
    let cs = seq![44u8, 32u8];
    assert(no_line_break(sp) && no_line_break(co)) by {
        assert(sp.len() == 1 && co.len() == 1);
    }
    assert(no_line_break(cs)) by {
        assert(cs.len() == 2 && cs[0] == 44u8 && cs[1] == 32u8);
    }
    let t1 = dn + cs;
    lemma_no_line_break_concat(dn, cs);
    lemma_no_line_break_concat(t1, fd);
    let t2 = t1 + fd;
    lemma_no_line_break_concat(t2, sp);
    let t3 = t2 + sp;
    lemma_no_line_break_concat(t3, mn);
    let t4 = t3 + mn;
    lemma_no_line_break_concat(t4, sp);
    let t5 = t4 + sp;
    lemma_no_line_break_concat(t5, fy);
    let t6 = t5 + fy;
    lemma_no_line_break_concat(t6, sp);
    let t7 = t6 + sp;
    lemma_no_line_break_concat(t7, fh);
    let t8 = t7 + fh;
    lemma_no_line_break_concat(t8, co);
    let t9 = t8 + co;
    lemma_no_line_break_concat(t9, fm);
    let t10 = t9 + fm;
    lemma_no_line_break_concat(t10, co);
    let t11 = t10 + co;
    lemma_no_line_break_concat(t11, fs);
    let t12 = t11 + fs;
    lemma_no_line_break_concat(t12, sp);
    let t13 = t12 + sp;
    lemma_no_line_break_concat(t13, fz);
    assert(date_text(d) == t13 + fz);
}

} // verus!
