//! What a parser reads back of what a writer wrote.

use vstd::prelude::*;
use crate::MailError;
use crate::chars::{CharClass, spec_is_ftext, spec_class_has};
use crate::lex::{spec_span_end, spec_skip_cfws, spec_fws, spec_skip_fws,
    spec_comment, spec_comments_end, spec_fws_comment, spec_wsp_end, spec_crlf, spec_char, spec_unstrict_char,
    spec_unstrict_crlf};
use crate::words::{spec_unstructured, spec_unstructured_scan, UnstructuredState};
use crate::fields::{OptionalFieldView, spec_optional_field, HeaderName, header_name, spec_text_field_k,
    spec_field_head};
use crate::lex::{spec_token_ci, spec_ci_prefix, spec_ci_eq};
use crate::header::FieldView;
use crate::imf_write::{WriteState, start_state, sw_from, spec_string_write, emit, probe, hsw_from,
    hsw_word, spec_header_string_write, crlf_bytes, is_fold_space, spec_optional_field_write,
    hsw_rank, spec_field_write, field_name, field_body, quote_escape, quote_piece,
    spec_quoted_string_write};
use crate::words::{spec_quoted_string, spec_qs_items, spec_qcontent};
use crate::lex::spec_quoted_pair;
use crate::date::{mailimf_date_time, spec_date_time};
use crate::imf_write::{date_text, spec_date_time_write};
use crate::date_roundtrip::{date_round_trips, law_date_time_round_trip, lemma_date_text_plain};

verus! {

/// A header value whose words stand one space apart: it holds no tab, CR or
/// LF, does not begin or end with a space, and has no two spaces in a row.
pub open spec fn single_spaced(v: Seq<u8>) -> bool {
    &&& forall|m: int| 0 <= m < v.len() ==> #[trigger] v[m] != 9 && v[m] != 10 && v[m] != 13
    &&& (v.len() > 0 ==> v[0] != 32 && v[v.len() - 1] != 32)
    &&& forall|m: int| 0 <= m < v.len() - 1 ==> !(#[trigger] v[m] == 32 && v[m + 1] == 32)
}

/// Plain text without line breaks, short enough not to be broken, is written
/// as it is.
proof fn lemma_sw_plain(w: WriteState, s: Seq<u8>, i: int, count: int, base: int)
    requires
        w.err is None,
        0 <= i <= s.len(),
        0 <= count,
        count + (s.len() - i) <= 998,
        forall|m: int| i <= m < s.len() ==> #[trigger] s[m] != 10 && s[m] != 13,
    ensures
        sw_from(w, s, i, count, base).out == w.out + s.subrange(i, s.len() as int),
        sw_from(w, s, i, count, base).col == base + count + (s.len() - i),
        sw_from(w, s, i, count, base).err is None,
    decreases s.len() - i,
{
    if i < s.len() {
        lemma_sw_plain(emit(w, seq![s[i]]), s, i + 1, count + 1, base);
        assert((w.out + seq![s[i]]) + s.subrange(i + 1, s.len() as int) =~= w.out + s.subrange(i, s.len() as int));
    } else {
        assert(w.out + s.subrange(i, s.len() as int) =~= w.out);
    }
}

proof fn lemma_string_write_plain(w: WriteState, s: Seq<u8>)
    requires
        w.err is None,
        s.len() <= 998,
        forall|m: int| 0 <= m < s.len() ==> #[trigger] s[m] != 10 && s[m] != 13,
    ensures
        spec_string_write(w, s).out == w.out + s,
        spec_string_write(w, s).col == w.col + s.len(),
        spec_string_write(w, s).err is None,
{
    lemma_sw_plain(w, s, 0, 0, w.col);
    assert(s.subrange(0, s.len() as int) =~= s);
}

/// A single-spaced value that ends before column 72 is written as it is.
proof fn lemma_hsw_single(w: WriteState, v: Seq<u8>, i: int, st: int, wb: int, first: bool, e: int, o0: Seq<u8>, c0: int)
    requires
        w.err is None,
        single_spaced(v),
        c0 >= 0,
        c0 + v.len() + 1 <= 72,
        0 <= i <= v.len(),
        st == 0 ==> i == 0 && first && w.out == o0 && w.col == c0,
        st == 1 ==> {
            &&& 0 <= wb <= i
            &&& wb < v.len()
            &&& (wb == 0) == first
            &&& (wb > 0 ==> v[wb - 1] == 32)
            &&& (forall|m: int| wb <= m < i ==> #[trigger] v[m] != 32)
            &&& w.out == o0 + v.subrange(0, if wb == 0 { 0 } else { wb - 1 })
            &&& w.col == c0 + (if wb == 0 { 0 } else { wb - 1 })
        },
        st == 2 ==> {
            &&& !first
            &&& 0 < e <= i < v.len()
            &&& (e == i || (e + 1 == i && v[e] == 32))
            &&& (e == i ==> v[i] == 32)
            &&& w.out == o0 + v.subrange(0, e)
            &&& w.col == c0 + e
        },
        st == 0 || st == 1 || st == 2,
    ensures
        hsw_from(w, v, i, st, wb, first).out == o0 + v,
        hsw_from(w, v, i, st, wb, first).col == c0 + v.len(),
        hsw_from(w, v, i, st, wb, first).err is None,
    decreases v.len() - i, hsw_rank(v, i, st),
{
    if i >= v.len() {
        if st == 1 {
            let word = v.subrange(wb, v.len() as int);
            let pv = (v.len() - wb) + w.col;
            let w1 = probe(w, pv);
            assert forall|m: int| 0 <= m < word.len() implies #[trigger] word[m] != 10 && word[m] != 13 by {
                assert(word[m] == v[wb + m]);
            }
            if first {
                lemma_string_write_plain(w1, word);
                assert(o0 + v.subrange(0, 0) + word =~= o0 + v);
            } else {
                lemma_string_write_plain(w1, seq![32u8]);
                let w2 = spec_string_write(w1, seq![32u8]);
                lemma_string_write_plain(w2, word);
                assert(o0 + v.subrange(0, wb - 1) + seq![32u8] + word =~= o0 + v);
            }
        } else if st == 0 {
            assert(o0 + v =~= o0);
        }
    } else if st != 1 {
        if is_fold_space(v[i]) {
            if st == 2 && e == i {
                if i + 1 == v.len() {
                    assert(v[v.len() - 1] != 32);
                }
                lemma_hsw_single(w, v, i + 1, st, wb, first, e, o0, c0);
            } else {
                assert(st == 2 ==> e + 1 == i && v[e] == 32);
                assert(false);
            }
        } else {
            if st == 2 {
                assert(e + 1 == i);
            }
            lemma_hsw_single(w, v, i, 1, i, first, e, o0, c0);
        }
    } else if is_fold_space(v[i]) {
        let word = v.subrange(wb, i);
        let pv = (i - wb) + w.col + 1;
        let w1 = probe(w, pv);
        assert forall|m: int| 0 <= m < word.len() implies #[trigger] word[m] != 10 && word[m] != 13 by {
            assert(word[m] == v[wb + m]);
        }
        assert(v[i] == 32);
        if first {
            lemma_string_write_plain(w1, word);
            assert(o0 + v.subrange(0, 0) + word =~= o0 + v.subrange(0, i));
        } else {
            lemma_string_write_plain(w1, seq![32u8]);
            let w2 = spec_string_write(w1, seq![32u8]);
            lemma_string_write_plain(w2, word);
            assert(o0 + v.subrange(0, wb - 1) + seq![32u8] + word =~= o0 + v.subrange(0, i));
        }
        let wn = hsw_word(w, word, pv, pv > 72, first);
        lemma_hsw_single(wn, v, i, 2, wb, false, i, o0, c0);
    } else {
        lemma_hsw_single(probe(w, (i - wb) + w.col), v, i + 1, 1, wb, first, e, o0, c0);
    }
}

proof fn lemma_span_exact(s: Seq<u8>, i: int, j: int, k: CharClass)
    requires
        0 <= i <= j <= s.len(),
        forall|m: int| i <= m < j ==> #[trigger] spec_class_has(k, s[m]),
        j == s.len() || !spec_class_has(k, s[j]),
    ensures
        spec_span_end(s, i, k) == j,
    decreases j - i,
{
    if i < j {
        lemma_span_exact(s, i + 1, j, k);
    }
}

/// No white space, line break or comment starts at `p`.
proof fn lemma_no_cfws_at(s: Seq<u8>, p: int)
    requires
        0 <= p < s.len(),
        s[p] != 32 && s[p] != 9 && s[p] != 13 && s[p] != 10 && s[p] != 40,
    ensures
        spec_skip_cfws(s, p) == p,
{
    assert(spec_wsp_end(s, p) == p);
    assert(spec_crlf(s, p) is Err);
    assert(spec_fws(s, p) is Err);
    assert(spec_skip_fws(s, p) == p);
    assert(spec_comment(s, p) is Err);
    assert(spec_fws_comment(s, p) is Err);
    assert(spec_comments_end(s, p) == p);
}

/// A final CRLF is no folding white space.
proof fn lemma_no_cfws_at_end(s: Seq<u8>, q: int)
    requires
        0 <= q,
        q + 2 == s.len(),
        s[q] == 13,
        s[q + 1] == 10,
    ensures
        spec_skip_cfws(s, q) == q,
        spec_crlf(s, q) == Ok::<int, MailError>(s.len() as int),
{
    assert(spec_wsp_end(s, q) == q);
    assert(spec_char(s, q + 1, 10) == Ok::<int, MailError>(q + 2));
    assert(spec_crlf(s, q) == Ok::<int, MailError>(q + 2));
    assert(spec_wsp_end(s, q + 2) == q + 2);
    assert(spec_fws(s, q) is Err);
    assert(spec_skip_fws(s, q) == q);
    assert(spec_comment(s, q) is Err);
    assert(spec_fws_comment(s, q) is Err);
    assert(spec_comments_end(s, q) == q);
}

proof fn lemma_scan_to_crlf(s: Seq<u8>, p: int, term: int, q: int)
    requires
        0 <= p <= q,
        q + 2 == s.len(),
        s[q] == 13,
        s[q + 1] == 10,
        forall|m: int| p <= m < q ==> #[trigger] s[m] != 13 && s[m] != 10,
    ensures
        spec_unstructured_scan(s, p, UnstructuredState::Start, term) == Ok::<int, MailError>(q),
    decreases q - p,
{
    if p < q {
        lemma_scan_to_crlf(s, p + 1, p, q);
    } else {
        assert(spec_unstructured_scan(s, q + 2, UnstructuredState::Lf, q) == Ok::<int, MailError>(q));
        assert(spec_unstructured_scan(s, q + 1, UnstructuredState::Cr, q) == Ok::<int, MailError>(q));
    }
}

/// The text of an optional field as it is written from column 0.
pub open spec fn written_optional_field(name: Seq<u8>, value: Seq<u8>) -> WriteState {
    spec_optional_field_write(start_state(Seq::empty(), 0), OptionalFieldView { name, value })
}

proof fn lemma_written_optional(name: Seq<u8>, value: Seq<u8>)
    requires
        forall|m: int| 0 <= m < name.len() ==> #[trigger] spec_is_ftext(name[m]),
        single_spaced(value),
        name.len() + value.len() + 3 <= 72,
    ensures
        written_optional_field(name, value).err is None,
        written_optional_field(name, value).out == name + seq![58u8, 32u8] + value + crlf_bytes(),
{
    let w = start_state(Seq::empty(), 0);
    assert forall|m: int| 0 <= m < name.len() implies #[trigger] name[m] != 10 && name[m] != 13 by {
        assert(spec_is_ftext(name[m]));
    }
    lemma_string_write_plain(w, name);
    let w0 = spec_string_write(w, name);
    lemma_string_write_plain(w0, seq![58u8, 32u8]);
    let w1 = spec_string_write(w0, seq![58u8, 32u8]);
    assert(w1.out =~= name + seq![58u8, 32u8]);
    lemma_hsw_single(w1, value, 0, 0, 0, true, 0, w1.out, w1.col);
    let w2 = spec_header_string_write(w1, value);
    let w3 = emit(w2, crlf_bytes());
    assert(sw_from(w3, crlf_bytes(), 2, 0, 0).out == w3.out);
    assert(sw_from(w2, crlf_bytes(), 0, 0, w2.col) == sw_from(w3, crlf_bytes(), 2, 0, 0));
    assert(spec_string_write(w2, crlf_bytes()).out == w2.out + crlf_bytes());
    assert(written_optional_field(name, value) == spec_string_write(w2, crlf_bytes()));
}

/// The line `prefix: value` CRLF, read from the colon on: the colon, the
/// value as unstructured text, and the line break.
proof fn lemma_read_line(prefix: Seq<u8>, value: Seq<u8>)
    requires
        single_spaced(value),
    ensures
        ({
            let out = prefix + seq![58u8, 32u8] + value + crlf_bytes();
            let n = prefix.len() as int;
            let q = n + 2 + value.len();
            &&& spec_unstrict_char(out, n, 58) == Ok::<int, MailError>(n + 1)
            &&& spec_unstructured(out, n + 1) == Ok::<(Seq<u8>, int), MailError>((value, q))
            &&& spec_unstrict_crlf(out, q) == Ok::<int, MailError>(q + 2)
            &&& out.len() == q + 2
        }),
{
    let out = prefix + seq![58u8, 32u8] + value + crlf_bytes();
    let n = prefix.len() as int;
    let q = n + 2 + value.len();
    assert(out.len() == q + 2);
    assert(out[n] == 58u8);
    assert(out[n + 1] == 32u8);
    assert(out[q] == 13u8);
    assert(out[q + 1] == 10u8);
    lemma_no_cfws_at(out, n);
    assert(spec_unstrict_char(out, n, 58) == Ok::<int, MailError>(n + 1));
    if value.len() > 0 {
        assert(out[n + 2] == value[0]);
    }
    assert(spec_wsp_end(out, n + 2) == n + 2);
    assert(spec_wsp_end(out, n + 1) == n + 2);
    assert forall|m: int| n + 2 <= m < q implies #[trigger] out[m] != 13 && out[m] != 10 by {
        assert(out[m] == value[m - n - 2]);
    }
    lemma_scan_to_crlf(out, n + 2, n + 2, q);
    assert(out.subrange(n + 2, q) =~= value);
    lemma_no_cfws_at_end(out, q);
}

proof fn lemma_read_optional(name: Seq<u8>, value: Seq<u8>)
    requires
        name.len() > 0,
        forall|m: int| 0 <= m < name.len() ==> #[trigger] spec_is_ftext(name[m]),
        single_spaced(value),
    ensures
        spec_optional_field(name + seq![58u8, 32u8] + value + crlf_bytes(), 0)
            == Ok::<(OptionalFieldView, int), MailError>((OptionalFieldView { name, value }, (name.len() + value.len() + 4) as int)),
{
    let out = name + seq![58u8, 32u8] + value + crlf_bytes();
    let n = name.len() as int;
    assert(out[n] == 58u8);
    assert forall|m: int| 0 <= m < n implies #[trigger] spec_class_has(CharClass::Ftext, out[m]) by {
        assert(out[m] == name[m]);
    }
    lemma_span_exact(out, 0, n, CharClass::Ftext);
    assert(out.subrange(0, n) =~= name);
    lemma_read_line(name, value);
}

/// An optional field that is written and then read back gives its name and
/// value again, the whole text being read: for a name of field-name bytes and
/// a single-spaced value that fit on one line of 72 columns.
pub proof fn law_optional_field_round_trip(name: Seq<u8>, value: Seq<u8>)
    requires
        name.len() > 0,
        forall|m: int| 0 <= m < name.len() ==> #[trigger] spec_is_ftext(name[m]),
        single_spaced(value),
        name.len() + value.len() + 3 <= 72,
    ensures
        written_optional_field(name, value).err is None,
        written_optional_field(name, value).out == name + seq![58u8, 32u8] + value + crlf_bytes(),
        spec_optional_field(written_optional_field(name, value).out, 0)
            == Ok::<(OptionalFieldView, int), MailError>((OptionalFieldView { name, value }, written_optional_field(name, value).out.len() as int)),
{
    lemma_written_optional(name, value);
    lemma_read_optional(name, value);
}


/// The field that holds unstructured text under the name `k`.
pub open spec fn text_field(k: HeaderName, value: Seq<u8>) -> FieldView {
    if k == HeaderName::Subject { FieldView::Subject(value) } else { FieldView::Comments(value) }
}

/// The text of a Subject: or Comments: field as it is written from column 0.
#[verifier::opaque]
pub open spec fn written_text_field(k: HeaderName, value: Seq<u8>) -> WriteState {
    spec_field_write(start_state(Seq::empty(), 0), text_field(k, value))
}

#[verifier::spinoff_prover]
proof fn lemma_written_text(k: HeaderName, value: Seq<u8>, p: Seq<u8>)
    requires
        k == HeaderName::Subject || k == HeaderName::Comments,
        p == header_name(k) + seq![58u8, 32u8],
        forall|m: int| 0 <= m < p.len() ==> #[trigger] p[m] != 10 && p[m] != 13,
        single_spaced(value),
        header_name(k).len() + value.len() + 3 <= 72,
    ensures
        written_text_field(k, value).err is None,
        written_text_field(k, value).out == p + value + crlf_bytes(),
{
    reveal(written_text_field);
    let w = start_state(Seq::empty(), 0);
    let f = text_field(k, value);
    lemma_string_write_plain(w, p);
    let w1 = spec_string_write(w, p);
    assert(w1.out =~= p);
    lemma_hsw_single(w1, value, 0, 0, 0, true, 0, w1.out, w1.col);
    let w2 = spec_header_string_write(w1, value);
    let w3 = emit(w2, crlf_bytes());
    assert(sw_from(w2, crlf_bytes(), 0, 0, w2.col) == sw_from(w3, crlf_bytes(), 2, 0, 0));
    assert(spec_string_write(w2, crlf_bytes()).out == w2.out + crlf_bytes());
    if k == HeaderName::Subject {
        assert(field_name(f) == k);
        assert(field_body(w1, f) == w2);
        assert(spec_field_write(w, f) == spec_string_write(w2, crlf_bytes()));
    } else {
        assert(field_name(f) == k);
        assert(field_body(w1, f) == w2);
        assert(spec_field_write(w, f) == spec_string_write(w2, crlf_bytes()));
    }
}

/// A field's name and the colon and space after it.
pub open spec fn name_colon(k: HeaderName) -> Seq<u8> {
    header_name(k) + seq![58u8, 32u8]
}

#[verifier::spinoff_prover]
proof fn lemma_text_prefix(k: HeaderName)
    requires
        k == HeaderName::Subject || k == HeaderName::Comments,
    ensures
        forall|m: int| 0 <= m < name_colon(k).len() ==> #[trigger] name_colon(k)[m] != 10 && name_colon(k)[m] != 13,
        header_name(k).len() > 0,
{
    let p = name_colon(k);
    if k == HeaderName::Subject {
        assert(p =~= seq![83u8, 117u8, 98u8, 106u8, 101u8, 99u8, 116u8, 58u8, 32u8]);
    } else {
        assert(p =~= seq![67u8, 111u8, 109u8, 109u8, 101u8, 110u8, 116u8, 115u8, 58u8, 32u8]);
    }
}

#[verifier::spinoff_prover]
proof fn lemma_read_text_at(k: HeaderName, value: Seq<u8>)
    requires
        single_spaced(value),
        header_name(k).len() > 0,
    ensures
        spec_text_field_k(header_name(k) + seq![58u8, 32u8] + value + crlf_bytes(), 0, k)
            == Ok::<(Seq<u8>, int), MailError>((value, (header_name(k).len() + value.len() + 4) as int)),
{
    let name = header_name(k);
    let out = name + seq![58u8, 32u8] + value + crlf_bytes();
    assert forall|m: int| 0 <= m < name.len() implies #[trigger] spec_ci_eq(out[m], name[m]) by {
        assert(out[m] == name[m]);
    }
    assert(spec_ci_prefix(out, 0, name));
    assert(spec_token_ci(out, 0, name) == Ok::<int, MailError>(name.len() as int));
    lemma_read_line(name, value);
    assert(spec_field_head(out, 0, k) == Ok::<int, MailError>((name.len() + 1) as int));
}

/// A Subject: or Comments: field that is written and then read back gives
/// its text again, the whole text being read: for a single-spaced text that
/// fits on one line of 72 columns.
pub proof fn law_text_field_round_trip(k: HeaderName, value: Seq<u8>)
    requires
        k == HeaderName::Subject || k == HeaderName::Comments,
        single_spaced(value),
        header_name(k).len() + value.len() + 3 <= 72,
    ensures
        written_text_field(k, value).err is None,
        written_text_field(k, value).out == header_name(k) + seq![58u8, 32u8] + value + crlf_bytes(),
        spec_text_field_k(written_text_field(k, value).out, 0, k)
            == Ok::<(Seq<u8>, int), MailError>((value, written_text_field(k, value).out.len() as int)),
{
    lemma_text_prefix(k);
    lemma_written_text(k, value, name_colon(k));
    lemma_read_text_at(k, value);
}

/// Printable ASCII with no two spaces in a row: the text that a quoted
/// string carries unchanged.
pub open spec fn quotable(t: Seq<u8>) -> bool {
    &&& forall|m: int| 0 <= m < t.len() ==> 32 <= #[trigger] t[m] <= 126
    &&& forall|m: int| 0 <= m < t.len() - 1 ==> !(#[trigger] t[m] == 32 && t[m + 1] == 32)
}

proof fn lemma_quote_escape_first(t: Seq<u8>)
    requires
        t.len() > 0,
    ensures
        quote_escape(t) == quote_piece(t[0]) + quote_escape(t.subrange(1, t.len() as int)),
    decreases t.len(),
{
    if t.len() == 1 {
        assert(t.drop_last() =~= Seq::<u8>::empty());
        assert(t.subrange(1, 1) =~= Seq::<u8>::empty());
        assert(quote_escape(Seq::<u8>::empty()) =~= Seq::<u8>::empty());
        assert(quote_escape(t) =~= quote_piece(t[0]) + quote_escape(t.subrange(1, t.len() as int)));
    } else {
        let d = t.drop_last();
        lemma_quote_escape_first(d);
        assert(t.subrange(1, t.len() as int).drop_last() =~= d.subrange(1, d.len() as int));
        assert(t.subrange(1, t.len() as int).last() == t.last());
        assert(quote_escape(t) =~= quote_piece(t[0]) + quote_escape(t.subrange(1, t.len() as int)));
    }
}

/// The escaped form of a printable, non-space byte is read back as that byte.
proof fn lemma_read_piece(x: Seq<u8>, c: u8, rest: Seq<u8>)
    requires
        33 <= c <= 126,
    ensures
        spec_qcontent(x + quote_piece(c) + rest, x.len() as int)
            == Ok::<(u8, int), MailError>((c, (x.len() + quote_piece(c).len()) as int)),
        quote_piece(c).len() >= 1,
        (x + quote_piece(c) + rest)[x.len() as int] != 32,
        (x + quote_piece(c) + rest)[x.len() as int] != 9,
{
    let w = x + quote_piece(c) + rest;
    assert(w[x.len() as int] == quote_piece(c)[0]);
    if c == 92 || c == 34 {
        assert(w[x.len() as int + 1] == c);
        assert(spec_quoted_pair(w, x.len() as int) == Ok::<(u8, int), MailError>((c, x.len() as int + 2)));
    }
}

/// The content of a quoted string that was written from `t` is read back as
/// `t`, up to the closing quote.
proof fn lemma_qs_items_escaped(x: Seq<u8>, t: Seq<u8>)
    requires
        quotable(t),
    ensures
        spec_qs_items(x + quote_escape(t) + seq![34u8], x.len() as int)
            == (t, (x.len() + quote_escape(t).len()) as int),
    decreases t.len(),
{
    let w = x + quote_escape(t) + seq![34u8];
    let p = x.len() as int;
    if t.len() == 0 {
        assert(quote_escape(t) =~= Seq::<u8>::empty());
        assert(w[p] == 34u8);
        assert(spec_wsp_end(w, p) == p);
        assert(spec_fws(w, p) is Err);
        assert(spec_qcontent(w, p) is Err);
        assert(t =~= Seq::<u8>::empty());
    } else {
        lemma_quote_escape_first(t);
        let t1 = t.subrange(1, t.len() as int);
        assert(quotable(t1)) by {
            assert forall|m: int| 0 <= m < t1.len() implies 32 <= #[trigger] t1[m] <= 126 by {
                assert(t1[m] == t[m + 1]);
            }
            assert forall|m: int| 0 <= m < t1.len() - 1 implies !(#[trigger] t1[m] == 32 && t1[m + 1] == 32) by {
                assert(t1[m] == t[m + 1]);
                assert(t1[m + 1] == t[m + 2]);
            }
        }
        if t[0] != 32 {
            let x1 = x + quote_piece(t[0]);
            assert(w =~= x + quote_piece(t[0]) + (quote_escape(t1) + seq![34u8]));
            lemma_read_piece(x, t[0], quote_escape(t1) + seq![34u8]);
            assert(spec_wsp_end(w, p) == p);
            assert(spec_fws(w, p) is Err);
            assert(w =~= x1 + quote_escape(t1) + seq![34u8]);
            lemma_qs_items_escaped(x1, t1);
            assert(seq![t[0]] + t1 =~= t);
        } else if t.len() == 1 {
            assert(quote_piece(t[0]) =~= seq![32u8]);
            assert(t1 =~= Seq::<u8>::empty());
            assert(quote_escape(t1) =~= Seq::<u8>::empty());
            assert(w =~= x + seq![32u8, 34u8]);
            assert(spec_wsp_end(w, p + 1) == p + 1);
            assert(spec_wsp_end(w, p) == p + 1);
            assert(spec_fws(w, p) == Ok::<int, MailError>(p + 1));
            assert(spec_qcontent(w, p + 1) is Err);
            assert(seq![32u8] =~= t);
        } else {
            assert(t[1] != 32);
            lemma_quote_escape_first(t1);
            assert(t1[0] == t[1]);
            let t2 = t1.subrange(1, t1.len() as int);
            assert(quotable(t2)) by {
                assert forall|m: int| 0 <= m < t2.len() implies 32 <= #[trigger] t2[m] <= 126 by {
                    assert(t2[m] == t1[m + 1]);
                }
                assert forall|m: int| 0 <= m < t2.len() - 1 implies !(#[trigger] t2[m] == 32 && t2[m + 1] == 32) by {
                    assert(t2[m] == t1[m + 1]);
                    assert(t2[m + 1] == t1[m + 2]);
                }
            }
            let xs = x + seq![32u8];
            let x2 = xs + quote_piece(t1[0]);
            assert(quote_piece(t[0]) =~= seq![32u8]);
            assert(w =~= xs + quote_piece(t1[0]) + (quote_escape(t2) + seq![34u8]));
            lemma_read_piece(xs, t1[0], quote_escape(t2) + seq![34u8]);
            assert(w[p] == 32u8);
            assert(spec_wsp_end(w, p + 1) == p + 1);
            assert(spec_wsp_end(w, p) == p + 1);
            assert(spec_crlf(w, p + 1) is Err);
            assert(spec_fws(w, p) == Ok::<int, MailError>(p + 1));
            assert(w =~= x2 + quote_escape(t2) + seq![34u8]);
            lemma_qs_items_escaped(x2, t2);
            assert(seq![32u8] + seq![t1[0]] + t2 =~= t);
            assert(quote_escape(t).len() == 1 + quote_piece(t1[0]).len() + quote_escape(t2).len());
        }
    }
}

/// A quoted string that is written and then read back gives the text again,
/// the whole string being read: for printable ASCII with no two spaces in a
/// row.
pub proof fn law_quoted_string_round_trip(col: int, t: Seq<u8>)
    requires
        quotable(t),
    ensures
        spec_quoted_string_write(start_state(Seq::empty(), col), t).err is None,
        spec_quoted_string(spec_quoted_string_write(start_state(Seq::empty(), col), t).out, 0)
            == Ok::<(Seq<u8>, int), MailError>((t, spec_quoted_string_write(start_state(Seq::empty(), col), t).out.len() as int)),
{
    let w = seq![34u8] + quote_escape(t) + seq![34u8];
    assert(spec_quoted_string_write(start_state(Seq::empty(), col), t).out =~= w);
    assert(w[0] == 34u8);
    assert(spec_wsp_end(w, 0) == 0);
    assert(spec_fws(w, 0) is Err);
    assert(spec_skip_fws(w, 0) == 0);
    assert(spec_comment(w, 0) is Err);
    assert(spec_fws_comment(w, 0) is Err);
    assert(spec_comments_end(w, 0) == 0);
    assert(spec_skip_cfws(w, 0) == 0);
    lemma_qs_items_escaped(seq![34u8], t);
    assert(w[w.len() - 1] == 34u8);
}

/// What the field writer writes for a `Date:` field holding `d`, at the
/// start of an empty buffer.
#[verifier::opaque]
pub open spec fn written_date_field(d: mailimf_date_time) -> WriteState {
    spec_field_write(start_state(Seq::empty(), 0), FieldView::OrigDate(d))
}

#[verifier::rlimit(100)]
#[verifier::spinoff_prover]
proof fn lemma_written_date(d: mailimf_date_time)
    requires
        date_round_trips(d),
    ensures
        written_date_field(d).err is None,
        written_date_field(d).out == seq![68u8, 97u8, 116u8, 101u8, 58u8, 32u8] + date_text(d) + crlf_bytes(),
{
    reveal(written_date_field);
    let w = start_state(Seq::empty(), 0);
    let f = FieldView::OrigDate(d);
    let p = header_name(HeaderName::OrigDate) + seq![58u8, 32u8];
    assert(p =~= seq![68u8, 97u8, 116u8, 101u8, 58u8, 32u8]);
    lemma_string_write_plain(w, p);
    let w1 = spec_string_write(w, p);
    assert(w1.out =~= p);
    let t = date_text(d);
    lemma_date_text_plain(d);
    lemma_string_write_plain(w1, t);
    let w2 = spec_string_write(w1, t);
    assert(field_name(f) == HeaderName::OrigDate);
    assert(field_body(w1, f) == w2);
    let w3 = emit(w2, crlf_bytes());
    assert(sw_from(w2, crlf_bytes(), 0, 0, w2.col) == sw_from(w3, crlf_bytes(), 2, 0, 0));
    assert(spec_string_write(w2, crlf_bytes()).out == w2.out + crlf_bytes());
    assert(spec_field_write(w, f) == spec_string_write(w2, crlf_bytes()));
}

/// A `Date:` field that is written and then read back gives the same date:
/// the field is `Date: `, the date's text and CRLF, and the date parser reads
/// the text between them whole, as the same date. This holds for a date whose
/// day of the week the writer can compute, whose numbers are not negative
/// and fit the digits written, and whose zone lies within four digits.
#[verifier::rlimit(100)]
#[verifier::spinoff_prover]
pub proof fn law_date_field_round_trip(d: mailimf_date_time)
    requires
        date_round_trips(d),
    ensures
        written_date_field(d).err is None,
        written_date_field(d).out == seq![68u8, 97u8, 116u8, 101u8, 58u8, 32u8] + date_text(d) + crlf_bytes(),
        spec_date_time(written_date_field(d).out.subrange(6, written_date_field(d).out.len() - 2), 0)
            == Ok::<(mailimf_date_time, int), MailError>((d, written_date_field(d).out.len() - 8)),
{
    lemma_written_date(d);
    let out = written_date_field(d).out;
    assert(out.subrange(6, out.len() - 2) =~= date_text(d));
    law_date_time_round_trip(d);
}

} // verus!
