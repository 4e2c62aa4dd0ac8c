//! Writing header fields back out as text: line breaks are written as CRLF,
//! no line grows past 998 bytes, and header values are folded near column 72.
//!
//! Every writer appends to an output buffer and moves a column counter. What
//! it writes is stated over a `WriteState`: the bytes written so far, the
//! column, the largest value that the column arithmetic reached (which must
//! fit in an `i32`), and the error that stopped the writing, if any. Once an
//! error is recorded, later writes leave the state unchanged.

use vstd::prelude::*;
use crate::MailError;
use crate::msgid::bytes_list_view;
use crate::fields::{HeaderName, header_name, header_name_bytes, OptionalFieldView, mailimf_optional_field, mailimf_path};
use crate::header::{FieldView, mailimf_field, mailimf_fields};
use crate::date::{mailimf_date_time, day_name, month_name, day_name_bytes, month_name_bytes};
use crate::address::{MailboxView, GroupView, AddressView, mailimf_mailbox, mailimf_mailbox_list, mailimf_group, mailimf_address, mailimf_address_list};

verus! {

/// The state of a writer.
pub struct WriteState {
    pub out: Seq<u8>,
    pub col: int,
    pub peak: int,
    pub err: Option<MailError>,
}

/// The state before anything is written: the bytes already in the buffer
/// and the column that the caller gives.
pub open spec fn start_state(out: Seq<u8>, col: int) -> WriteState {
    WriteState { out, col, peak: col, err: None }
}

pub open spec fn max_int(a: int, b: int) -> int {
    if a < b { b } else { a }
}

/// Append bytes without moving the column.
pub open spec fn emit(w: WriteState, b: Seq<u8>) -> WriteState {
    WriteState { out: w.out + b, ..w }
}

/// Set the column.
pub open spec fn set_col(w: WriteState, c: int) -> WriteState {
    WriteState { col: c, peak: max_int(w.peak, c), ..w }
}

/// Note a value of the column arithmetic that is computed but not stored.
pub open spec fn probe(w: WriteState, v: int) -> WriteState {
    WriteState { peak: max_int(w.peak, v), ..w }
}

/// Record an error.
pub open spec fn fail(w: WriteState, e: MailError) -> WriteState {
    WriteState { err: Some(e), ..w }
}

pub open spec fn crlf_bytes() -> Seq<u8> {
    seq![13u8, 10u8]
}

/// The outcome of a writer, from the state it ends in.
pub open spec fn outcome(w: WriteState) -> Result<(), MailError> {
    match w.err {
        Some(e) => Err(e),
        None => Ok(()),
    }
}

// ---------------------------------------------------------------------------
// Plain strings
// ---------------------------------------------------------------------------

/// The rest of `s` from `i` on, written as plain text. `count` bytes have been
/// written since the last line break of this write, and the line began at
/// column `base`. Each line break (CRLF, CR or LF alone) is written as CRLF;
/// after 998 bytes without one, a CRLF is inserted before the next byte. The
/// column ends at `base + count`.
pub open spec fn sw_from(w: WriteState, s: Seq<u8>, i: int, count: int, base: int) -> WriteState
    decreases s.len() - i, (if count >= 998 { 1int } else { 0int }),
{
    if i < 0 || i >= s.len() {
        set_col(w, base + count)
    } else if count >= 998 {
        sw_from(emit(w, crlf_bytes()), s, i, 0, 0)
    } else if s[i] == 10 {
        sw_from(emit(w, crlf_bytes()), s, i + 1, 0, 0)
    } else if s[i] == 13 {
        if i + 1 < s.len() && s[i + 1] == 10 {
            sw_from(emit(w, crlf_bytes()), s, i + 2, 0, 0)
        } else {
            sw_from(emit(w, crlf_bytes()), s, i + 1, 0, 0)
        }
    } else {
        sw_from(emit(w, seq![s[i]]), s, i + 1, count + 1, base)
    }
}

/// Writing `s` as plain text.
pub open spec fn spec_string_write(w: WriteState, s: Seq<u8>) -> WriteState {
    if w.err is Some {
        w
    } else {
        sw_from(w, s, 0, 0, w.col)
    }
}

/// Writing as plain text records no error, never lowers the peak, ends with
/// the column at most at the peak and not below zero, and only appends.
pub proof fn lemma_sw_from(w: WriteState, s: Seq<u8>, i: int, count: int, base: int)
    requires
        w.err is None,
        base >= 0,
        count >= 0,
    ensures
        sw_from(w, s, i, count, base).err is None,
        sw_from(w, s, i, count, base).peak >= w.peak,
        0 <= sw_from(w, s, i, count, base).col <= sw_from(w, s, i, count, base).peak,
        w.out.is_prefix_of(sw_from(w, s, i, count, base).out),
    decreases s.len() - i, (if count >= 998 { 1int } else { 0int }),
{
    if i < 0 || i >= s.len() {
    } else if count >= 998 {
        lemma_sw_from(emit(w, crlf_bytes()), s, i, 0, 0);
    } else if s[i] == 10 {
        lemma_sw_from(emit(w, crlf_bytes()), s, i + 1, 0, 0);
    } else if s[i] == 13 {
        if i + 1 < s.len() && s[i + 1] == 10 {
            lemma_sw_from(emit(w, crlf_bytes()), s, i + 2, 0, 0);
        } else {
            lemma_sw_from(emit(w, crlf_bytes()), s, i + 1, 0, 0);
        }
    } else {
        lemma_sw_from(emit(w, seq![s[i]]), s, i + 1, count + 1, base);
    }
}

/// What every writer keeps, for plain text: an error stops it, the peak does
/// not go down, and a column that starts at zero or more stays so.
pub proof fn lemma_string_write(w: WriteState, s: Seq<u8>)
    ensures
        w.err is Some ==> spec_string_write(w, s) == w,
        spec_string_write(w, s).peak >= w.peak,
        w.err is None ==> spec_string_write(w, s).err is None,
        w.err is None && w.col >= 0 ==> 0 <= spec_string_write(w, s).col <= spec_string_write(w, s).peak,
{
    if w.err is None && w.col >= 0 {
        lemma_sw_from(w, s, 0, 0, w.col);
    } else if w.err is None {
        lemma_sw_from_peak(w, s, 0, 0, w.col);
    }
}

/// The peak never goes down while plain text is written.
pub proof fn lemma_sw_from_peak(w: WriteState, s: Seq<u8>, i: int, count: int, base: int)
    requires
        w.err is None,
    ensures
        sw_from(w, s, i, count, base).err is None,
        sw_from(w, s, i, count, base).peak >= w.peak,
    decreases s.len() - i, (if count >= 998 { 1int } else { 0int }),
{
    if i < 0 || i >= s.len() {
    } else if count >= 998 {
        lemma_sw_from_peak(emit(w, crlf_bytes()), s, i, 0, 0);
    } else if s[i] == 10 {
        lemma_sw_from_peak(emit(w, crlf_bytes()), s, i + 1, 0, 0);
    } else if s[i] == 13 {
        if i + 1 < s.len() && s[i + 1] == 10 {
            lemma_sw_from_peak(emit(w, crlf_bytes()), s, i + 2, 0, 0);
        } else {
            lemma_sw_from_peak(emit(w, crlf_bytes()), s, i + 1, 0, 0);
        }
    } else {
        lemma_sw_from_peak(emit(w, seq![s[i]]), s, i + 1, count + 1, base);
    }
}

/// The state that a writer may start from: no error, the buffer and the
/// column as they are, and a column that is not negative.
pub open spec fn ready(out: Seq<u8>, col: i32, w: WriteState) -> bool {
    &&& w.err is None
    &&& w.out == out
    &&& w.col == col as int
    &&& col >= 0
}

/// The buffer and column after a writer, as its final state gives them.
pub open spec fn ends_in(out: Seq<u8>, col: i32, w: WriteState) -> bool {
    out == w.out && col as int == w.col
}

fn string_write_k(out: &mut Vec<u8>, col: &mut i32, s: &[u8], Ghost(w0): Ghost<WriteState>)
    requires
        ready(old(out)@, *old(col), w0),
        spec_string_write(w0, s@).peak <= i32::MAX,
    ensures
        ends_in(final(out)@, *final(col), spec_string_write(w0, s@)),
        spec_string_write(w0, s@).err is None,
{
    proof {
        lemma_sw_keeps(w0, s@);
    }
    let ghost target = spec_string_write(w0, s@);
    let n = s.len();
    let mut i: usize = 0;
    let mut count: usize = 0;
    let mut base: i32 = *col;
    let ghost mut w = w0;
    while i < n
        invariant
            n == s@.len(),
            i <= n,
            count <= 998,
            base >= 0,
            w.err is None,
            w.out == out@,
            sw_from(w, s@, i as int, count as int, base as int) == target,
            target.peak <= i32::MAX,
        decreases n - i, (if count >= 998 { 1int } else { 0int }),
    {
        if count >= 998 {
            out.push(13u8);
            out.push(10u8);
            proof {
                w = emit(w, crlf_bytes());
                assert(w.out == out@);
            }
            count = 0;
            base = 0;
        } else if s[i] == 10 {
            out.push(13u8);
            out.push(10u8);
            proof {
                w = emit(w, crlf_bytes());
                assert(w.out == out@);
            }
            i = i + 1;
            count = 0;
            base = 0;
        } else if s[i] == 13 {
            out.push(13u8);
            out.push(10u8);
            proof {
                w = emit(w, crlf_bytes());
                assert(w.out == out@);
            }
            if i + 1 < n && s[i + 1] == 10 {
                i = i + 2;
            } else {
                i = i + 1;
            }
            count = 0;
            base = 0;
        } else {
            out.push(s[i]);
            proof {
                w = emit(w, seq![s@[i as int]]);
                assert(w.out == out@);
            }
            i = i + 1;
            count = count + 1;
        }
    }
    proof {
        assert(target == set_col(w, base + count));
    }
    *col = base + count as i32;
}

/// mailimf_string_write: writes `s` at column `*col`, turning each line break
/// into CRLF and breaking lines that would pass 998 bytes; `*col` ends at the
/// column after the text.
pub fn mailimf_string_write_driver(out: &mut Vec<u8>, col: &mut i32, s: &[u8])
    requires
        *old(col) >= 0,
        spec_string_write(start_state(old(out)@, *old(col) as int), s@).peak <= i32::MAX,
    ensures
        ends_in(final(out)@, *final(col), spec_string_write(start_state(old(out)@, *old(col) as int), s@)),
{
    string_write_k(out, col, s, Ghost(start_state(out@, *col as int)));
}

/// Whether a byte ends a word of a header value.
pub open spec fn is_fold_space(c: u8) -> bool {
    c == 13 || c == 10 || c == 32 || c == 9
}

pub open spec fn fold_bytes() -> Seq<u8> {
    seq![13u8, 10u8, 32u8]
}

/// Writing the word `word` of a header value: on a new folded line when
/// `fold` holds, else after a space unless it is the first word. `pv` is the
/// column arithmetic that decided the fold.
pub open spec fn hsw_word(w: WriteState, word: Seq<u8>, pv: int, fold: bool, first: bool) -> WriteState {
    let w1 = probe(w, pv);
    let w2 = if fold {
        spec_string_write(w1, fold_bytes())
    } else if !first {
        spec_string_write(w1, seq![32u8])
    } else {
        w1
    };
    spec_string_write(w2, word)
}

/// The measure that orders the steps of `hsw_from` at one position.
pub open spec fn hsw_rank(s: Seq<u8>, i: int, st: int) -> int {
    if 0 <= i < s.len() {
        if st == 1 {
            if is_fold_space(s[i]) { 1 } else { 0 }
        } else {
            if is_fold_space(s[i]) { 0 } else { 2 }
        }
    } else {
        0
    }
}

/// The rest of a header value from `i` on. `st` is 0 before the first word,
/// 1 inside a word that began at `wb`, 2 in the space after a word.
pub open spec fn hsw_from(w: WriteState, s: Seq<u8>, i: int, st: int, wb: int, first: bool) -> WriteState
    decreases s.len() - i, hsw_rank(s, i, st),
{
    if i < 0 || i >= s.len() {
        if st == 1 {
            let pv = (s.len() - wb) + w.col;
            hsw_word(w, s.subrange(wb, s.len() as int), pv, pv >= 72, first)
        } else {
            w
        }
    } else if st != 1 {
        if is_fold_space(s[i]) {
            hsw_from(w, s, i + 1, st, wb, first)
        } else {
            hsw_from(w, s, i, 1, i, first)
        }
    } else if is_fold_space(s[i]) {
        let pv = (i - wb) + w.col + 1;
        let w2 = hsw_word(w, s.subrange(wb, i), pv, pv > 72, first);
        hsw_from(w2, s, i, 2, wb, false)
    } else if (i - wb) + w.col >= 998 {
        let w1 = probe(w, (i - wb) + w.col);
        let w2 = spec_string_write(spec_string_write(w1, s.subrange(wb, i)), fold_bytes());
        hsw_from(w2, s, i + 1, 1, i, first)
    } else {
        hsw_from(probe(w, (i - wb) + w.col), s, i + 1, 1, wb, first)
    }
}

/// Writing a header value: its words are written one space apart, and a
/// line is folded (CRLF and a space) before a word that would pass column
/// 72, or inside a word that would pass 998 bytes.
pub open spec fn spec_header_string_write(w: WriteState, s: Seq<u8>) -> WriteState {
    if w.err is Some {
        w
    } else {
        hsw_from(w, s, 0, 0, 0, true)
    }
}

/// What every writer keeps, for a word of a header value.
pub proof fn lemma_hsw_word(w: WriteState, word: Seq<u8>, pv: int, fold: bool, first: bool)
    requires
        w.err is None,
        w.col >= 0,
    ensures
        hsw_word(w, word, pv, fold, first).err is None,
        hsw_word(w, word, pv, fold, first).peak >= max_int(w.peak, pv),
        0 <= hsw_word(w, word, pv, fold, first).col <= hsw_word(w, word, pv, fold, first).peak,
{
    let w1 = probe(w, pv);
    lemma_string_write(w1, fold_bytes());
    lemma_string_write(w1, seq![32u8]);
    let w2 = if fold {
        spec_string_write(w1, fold_bytes())
    } else if !first {
        spec_string_write(w1, seq![32u8])
    } else {
        w1
    };
    lemma_string_write(w2, word);
}

/// What every writer keeps, for the rest of a header value.
pub proof fn lemma_hsw_from(w: WriteState, s: Seq<u8>, i: int, st: int, wb: int, first: bool)
    requires
        w.err is None,
        w.col >= 0,
    ensures
        hsw_from(w, s, i, st, wb, first).err is None,
        hsw_from(w, s, i, st, wb, first).peak >= w.peak,
        hsw_from(w, s, i, st, wb, first).col >= 0,
    decreases s.len() - i, hsw_rank(s, i, st),
{
    if i < 0 || i >= s.len() {
        if st == 1 {
            let pv = (s.len() - wb) + w.col;
            lemma_hsw_word(w, s.subrange(wb, s.len() as int), pv, pv >= 72, first);
        }
    } else if st != 1 {
        if is_fold_space(s[i]) {
            lemma_hsw_from(w, s, i + 1, st, wb, first);
        } else {
            lemma_hsw_from(w, s, i, 1, i, first);
        }
    } else if is_fold_space(s[i]) {
        let pv = (i - wb) + w.col + 1;
        lemma_hsw_word(w, s.subrange(wb, i), pv, pv > 72, first);
        let w2 = hsw_word(w, s.subrange(wb, i), pv, pv > 72, first);
        lemma_hsw_from(w2, s, i, 2, wb, false);
    } else if (i - wb) + w.col >= 998 {
        let w1 = probe(w, (i - wb) + w.col);
        lemma_string_write(w1, s.subrange(wb, i));
        let w15 = spec_string_write(w1, s.subrange(wb, i));
        lemma_string_write(w15, fold_bytes());
        let w2 = spec_string_write(w15, fold_bytes());
        lemma_hsw_from(w2, s, i + 1, 1, i, first);
    } else {
        lemma_hsw_from(probe(w, (i - wb) + w.col), s, i + 1, 1, wb, first);
    }
}

/// What every writer keeps, for a header value.
pub proof fn lemma_header_string_write(w: WriteState, s: Seq<u8>)
    ensures
        w.err is Some ==> spec_header_string_write(w, s) == w,
        spec_header_string_write(w, s).peak >= w.peak,
        w.err is None && w.col >= 0 ==> spec_header_string_write(w, s).err is None && spec_header_string_write(w, s).col >= 0,
{
    if w.err is None {
        if w.col >= 0 {
            lemma_hsw_from(w, s, 0, 0, 0, true);
        } else {
            lemma_hsw_from_peak(w, s, 0, 0, 0, true);
        }
    }
}

/// The peak never goes down while a header value is written.
pub proof fn lemma_hsw_from_peak(w: WriteState, s: Seq<u8>, i: int, st: int, wb: int, first: bool)
    requires
        w.err is None,
    ensures
        hsw_from(w, s, i, st, wb, first).peak >= w.peak,
    decreases s.len() - i, hsw_rank(s, i, st),
{
    if i < 0 || i >= s.len() {
        if st == 1 {
            let pv = (s.len() - wb) + w.col;
            let w1 = probe(w, pv);
            lemma_string_write(w1, fold_bytes());
            lemma_string_write(w1, seq![32u8]);
            let w2 = if pv >= 72 {
                spec_string_write(w1, fold_bytes())
            } else if !first {
                spec_string_write(w1, seq![32u8])
            } else {
                w1
            };
            lemma_string_write(w2, s.subrange(wb, s.len() as int));
        }
    } else if st != 1 {
        if is_fold_space(s[i]) {
            lemma_hsw_from_peak(w, s, i + 1, st, wb, first);
        } else {
            lemma_hsw_from_peak(w, s, i, 1, i, first);
        }
    } else if is_fold_space(s[i]) {
        let pv = (i - wb) + w.col + 1;
        let w1 = probe(w, pv);
        lemma_string_write(w1, fold_bytes());
        lemma_string_write(w1, seq![32u8]);
        let wm = if pv > 72 {
            spec_string_write(w1, fold_bytes())
        } else if !first {
            spec_string_write(w1, seq![32u8])
        } else {
            w1
        };
        lemma_string_write(wm, s.subrange(wb, i));
        let w2 = hsw_word(w, s.subrange(wb, i), pv, pv > 72, first);
        lemma_hsw_from_peak(w2, s, i, 2, wb, false);
    } else if (i - wb) + w.col >= 998 {
        let w1 = probe(w, (i - wb) + w.col);
        lemma_string_write(w1, s.subrange(wb, i));
        let w15 = spec_string_write(w1, s.subrange(wb, i));
        lemma_string_write(w15, fold_bytes());
        let w2 = spec_string_write(w15, fold_bytes());
        lemma_hsw_from_peak(w2, s, i + 1, 1, i, first);
    } else {
        lemma_hsw_from_peak(probe(w, (i - wb) + w.col), s, i + 1, 1, wb, first);
    }
}

fn fold_vec() -> (v: Vec<u8>)
    ensures
        v@ == fold_bytes(),
{
    let v = vec![13u8, 10u8, 32u8];
    assert(v@ == fold_bytes());
    v
}

fn hsw_word_k(out: &mut Vec<u8>, col: &mut i32, word: &[u8], pv: i32, fold: bool, first: bool, Ghost(w): Ghost<WriteState>)
    requires
        ready(old(out)@, *old(col), w),
        hsw_word(w, word@, pv as int, fold, first).peak <= i32::MAX,
    ensures
        ends_in(final(out)@, *final(col), hsw_word(w, word@, pv as int, fold, first)),
        *final(col) >= 0,
        hsw_word(w, word@, pv as int, fold, first).err is None,
{
    proof {
        lemma_hsw_word(w, word@, pv as int, fold, first);
    }
    let ghost w1 = probe(w, pv as int);
    proof {
        lemma_hsw_word(w, word@, pv as int, fold, first);
        lemma_string_write(w1, fold_bytes());
        lemma_string_write(w1, seq![32u8]);
    }
    let ghost w2 = if fold {
        spec_string_write(w1, fold_bytes())
    } else if !first {
        spec_string_write(w1, seq![32u8])
    } else {
        w1
    };
    proof {
        lemma_string_write(w2, word@);
    }
    if fold {
        let f = fold_vec();
        string_write_k(out, col, f.as_slice(), Ghost(w1));
    } else if !first {
        let sp: [u8; 1] = [32u8];
        assert(sp@ == seq![32u8]);
        string_write_k(out, col, &sp, Ghost(w1));
    }
    string_write_k(out, col, word, Ghost(w2));
}

fn header_string_write_k(out: &mut Vec<u8>, col: &mut i32, s: &[u8], Ghost(w0): Ghost<WriteState>)
    requires
        ready(old(out)@, *old(col), w0),
        spec_header_string_write(w0, s@).peak <= i32::MAX,
    ensures
        ends_in(final(out)@, *final(col), spec_header_string_write(w0, s@)),
        *final(col) >= 0,
        spec_header_string_write(w0, s@).err is None,
{
    proof {
        lemma_hsw_keeps(w0, s@);
    }
    let ghost target = spec_header_string_write(w0, s@);
    let n = s.len();
    let mut i: usize = 0;
    let mut st: u8 = 0;
    let mut wb: usize = 0;
    let mut first: bool = true;
    let ghost mut w = w0;
    while i < n
        invariant
            n == s@.len(),
            i <= n,
            wb <= i,
            st <= 2,
            ready(out@, *col, w),
            hsw_from(w, s@, i as int, st as int, wb as int, first) == target,
            target.peak <= i32::MAX,
        decreases n - i, hsw_rank(s@, i as int, st as int),
    {
        let c = s[i];
        let ws = c == 13 || c == 10 || c == 32 || c == 9;
        if st != 1 {
            if ws {
                i = i + 1;
            } else {
                st = 1;
                wb = i;
            }
        } else if ws {
            let ghost pvi = (i - wb) + w.col + 1;
            let ghost wn = hsw_word(w, s@.subrange(wb as int, i as int), pvi, pvi > 72, first);
            proof {
                lemma_hsw_word(w, s@.subrange(wb as int, i as int), pvi, pvi > 72, first);
                lemma_hsw_from(wn, s@, i as int, 2, wb as int, false);
            }
            let pv: i32 = (i - wb) as i32 + *col + 1;
            let word = vstd::slice::slice_subrange(s, wb, i);
            hsw_word_k(out, col, word, pv, pv > 72, first, Ghost(w));
            proof {
                w = wn;
            }
            first = false;
            st = 2;
        } else {
            let ghost pvi = (i - wb) + w.col;
            proof {
                if pvi >= 998 {
                    let w1 = probe(w, pvi);
                    lemma_string_write(w1, s@.subrange(wb as int, i as int));
                    let w15 = spec_string_write(w1, s@.subrange(wb as int, i as int));
                    lemma_string_write(w15, fold_bytes());
                    let w2 = spec_string_write(w15, fold_bytes());
                    lemma_hsw_from(w2, s@, i + 1, 1, i as int, first);
                } else {
                    lemma_hsw_from(probe(w, pvi), s@, i + 1, 1, wb as int, first);
                }
            }
            let pv: i32 = (i - wb) as i32 + *col;
            if pv >= 998 {
                let ghost w1 = probe(w, pvi);
                let word = vstd::slice::slice_subrange(s, wb, i);
                string_write_k(out, col, word, Ghost(w1));
                let ghost w15 = spec_string_write(w1, s@.subrange(wb as int, i as int));
                let f = fold_vec();
                string_write_k(out, col, f.as_slice(), Ghost(w15));
                proof {
                    w = spec_string_write(w15, fold_bytes());
                }
                wb = i;
            } else {
                proof {
                    w = probe(w, pvi);
                }
            }
            i = i + 1;
        }
    }
    if st == 1 {
        let ghost pvi = (n - wb) + w.col;
        proof {
            lemma_hsw_word(w, s@.subrange(wb as int, n as int), pvi, pvi >= 72, first);
        }
        let pv: i32 = (n - wb) as i32 + *col;
        let word = vstd::slice::slice_subrange(s, wb, n);
        hsw_word_k(out, col, word, pv, pv >= 72, first, Ghost(w));
    }
}

/// mailimf_header_string_write: writes a header value at column `*col`,
/// folding it as `spec_header_string_write` says.
pub fn mailimf_header_string_write_driver(out: &mut Vec<u8>, col: &mut i32, s: &[u8])
    requires
        *old(col) >= 0,
        spec_header_string_write(start_state(old(out)@, *old(col) as int), s@).peak <= i32::MAX,
    ensures
        ends_in(final(out)@, *final(col), spec_header_string_write(start_state(old(out)@, *old(col) as int), s@)),
{
    header_string_write_k(out, col, s, Ghost(start_state(out@, *col as int)));
}

// ---------------------------------------------------------------------------
// Quoted strings
// ---------------------------------------------------------------------------

/// The bytes of `s` with a backslash before each backslash and double quote.
pub open spec fn quote_escape(s: Seq<u8>) -> Seq<u8>
    decreases s.len(),
{
    if s.len() == 0 {
        Seq::empty()
    } else {
        quote_escape(s.drop_last()) + quote_piece(s.last())
    }
}

pub open spec fn quote_piece(c: u8) -> Seq<u8> {
    if c == 92 || c == 34 {
        seq![92u8, c]
    } else {
        seq![c]
    }
}

/// Writing `s` as a quoted string. The column moves past all that is
/// written: the two quotes and the escaped text.
pub open spec fn spec_quoted_string_write(w: WriteState, s: Seq<u8>) -> WriteState {
    if w.err is Some {
        w
    } else {
        set_col(emit(w, seq![34u8] + quote_escape(s) + seq![34u8]), w.col + quote_escape(s).len() + 2)
    }
}

pub proof fn lemma_quote_escape_prefix(s: Seq<u8>, i: int)
    requires
        0 <= i <= s.len(),
    ensures
        quote_escape(s.take(i)).len() <= quote_escape(s).len(),
    decreases s.len(),
{
    if i == s.len() {
        assert(s.take(i) =~= s);
    } else {
        assert(s.drop_last().take(i) =~= s.take(i));
        lemma_quote_escape_prefix(s.drop_last(), i);
    }
}

fn quoted_string_write_k(out: &mut Vec<u8>, col: &mut i32, s: &[u8], Ghost(w): Ghost<WriteState>)
    requires
        ready(old(out)@, *old(col), w),
        spec_quoted_string_write(w, s@).peak <= i32::MAX,
    ensures
        ends_in(final(out)@, *final(col), spec_quoted_string_write(w, s@)),
        *final(col) >= 0,
        spec_quoted_string_write(w, s@).err is None,
{
    let ghost o0 = out@;
    let ghost c0 = *col as int;
    out.push(34u8);
    *col = *col + 1;
    let n = s.len();
    let mut i: usize = 0;
    while i < n
        invariant
            n == s@.len(),
            i <= n,
            out@ == o0 + seq![34u8] + quote_escape(s@.take(i as int)),
            *col as int == c0 + 1 + quote_escape(s@.take(i as int)).len(),
            c0 >= 0,
            c0 + quote_escape(s@).len() + 2 <= i32::MAX,
        decreases n - i,
    {
        proof {
            assert(s@.take(i + 1).drop_last() =~= s@.take(i as int));
            lemma_quote_escape_prefix(s@, i + 1);
        }
        let c = s[i];
        if c == 92 || c == 34 {
            out.push(92u8);
            out.push(c);
            *col = *col + 2;
        } else {
            out.push(c);
            *col = *col + 1;
        }
        proof {
            assert(out@ =~= o0 + seq![34u8] + quote_escape(s@.take(i + 1)));
        }
        i = i + 1;
    }
    proof {
        assert(s@.take(n as int) =~= s@);
    }
    out.push(34u8);
    *col = *col + 1;
    proof {
        assert(out@ =~= o0 + (seq![34u8] + quote_escape(s@) + seq![34u8]));
    }
}

/// mailimf_quoted_string_write: writes `s` between double quotes, with a
/// backslash before each backslash and double quote.
pub fn mailimf_quoted_string_write_driver(out: &mut Vec<u8>, col: &mut i32, s: &[u8])
    requires
        *old(col) >= 0,
        spec_quoted_string_write(start_state(old(out)@, *old(col) as int), s@).peak <= i32::MAX,
    ensures
        ends_in(final(out)@, *final(col), spec_quoted_string_write(start_state(old(out)@, *old(col) as int), s@)),
{
    quoted_string_write_k(out, col, s, Ghost(start_state(out@, *col as int)));
}

// ---------------------------------------------------------------------------
// Addresses
// ---------------------------------------------------------------------------

/// What every writer keeps from its start `w` to its end `w2`: an error
/// already recorded stops it, the peak does not go down, and the column does
/// not become negative.
pub open spec fn keeps(w: WriteState, w2: WriteState) -> bool {
    &&& (w.err is Some ==> w2 == w)
    &&& w2.peak >= w.peak
    &&& (w.col >= 0 ==> w2.col >= 0)
    &&& w2.out.len() >= w.out.len()
}

pub proof fn lemma_sw_keeps(w: WriteState, s: Seq<u8>)
    ensures
        keeps(w, spec_string_write(w, s)),
        w.err is None ==> spec_string_write(w, s).err is None,
{
    lemma_string_write(w, s);
    if w.err is None && w.col >= 0 {
        lemma_sw_from(w, s, 0, 0, w.col);
    }
    assert(w.out.skip(w.out.len() as int) =~= Seq::<u8>::empty());
    lemma_sw_crlf(w, s, w.out.len() as int);
}

pub proof fn lemma_hsw_keeps(w: WriteState, s: Seq<u8>)
    ensures
        keeps(w, spec_header_string_write(w, s)),
        w.err is None && w.col >= 0 ==> spec_header_string_write(w, s).err is None,
{
    lemma_header_string_write(w, s);
    assert(w.out.skip(w.out.len() as int) =~= Seq::<u8>::empty());
    if w.err is None {
        lemma_hsw_from_crlf(w, s, 0, 0, 0, true, w.out.len() as int);
    }
}

pub proof fn lemma_quoted_keeps(w: WriteState, s: Seq<u8>)
    ensures
        keeps(w, spec_quoted_string_write(w, s)),
{
}

/// The bytes that may stand in a display name written without quotes:
/// letters, digits, space, tab and the signs of RFC 2822's atext.
pub open spec fn is_display_atext(c: u8) -> bool {
    (65 <= c <= 90) || (97 <= c <= 122) || (48 <= c <= 57)
        || c == 32 || c == 9 || c == 33 || c == 35 || c == 36 || c == 37 || c == 38 || c == 39
        || c == 42 || c == 43 || c == 45 || c == 47 || c == 61 || c == 63 || c == 94 || c == 95
        || c == 96 || c == 123 || c == 124 || c == 125 || c == 126
}

pub open spec fn all_display_atext(s: Seq<u8>) -> bool {
    forall|i: int| 0 <= i < s.len() ==> is_display_atext(#[trigger] s[i])
}

fn display_atext(s: &[u8]) -> (r: bool)
    ensures
        r == all_display_atext(s@),
{
    let mut i: usize = 0;
    while i < s.len()
        invariant
            i <= s@.len(),
            forall|k: int| 0 <= k < i ==> is_display_atext(#[trigger] s@[k]),
        decreases s@.len() - i,
    {
        let c = s[i];
        let ok = (65 <= c && c <= 90) || (97 <= c && c <= 122) || (48 <= c && c <= 57)
            || c == 32 || c == 9 || c == 33 || c == 35 || c == 36 || c == 37 || c == 38 || c == 39
            || c == 42 || c == 43 || c == 45 || c == 47 || c == 61 || c == 63 || c == 94 || c == 95
            || c == 96 || c == 123 || c == 124 || c == 125 || c == 126;
        if !ok {
            return false;
        }
        i = i + 1;
    }
    true
}

/// Whether `col + len + extra` reaches column 72.
fn reaches_72(col: i32, len: usize, extra: usize) -> (r: bool)
    requires
        col >= 0,
        extra <= 3,
    ensures
        r == (col + len + extra >= 72),
{
    len >= 72 || (col as usize) + len + extra >= 72
}

/// Writing a mailbox. A display name that is all atext is written as a
/// header value; another one is quoted (after a fold if it would reach column
/// 72), and one longer than 499 bytes is refused. The address follows in
/// angle brackets, on a folded line if it would reach column 72. A mailbox
/// without a display name is its address alone, folded before if it would
/// reach column 72.
pub open spec fn spec_mailbox_write(w: WriteState, m: MailboxView) -> WriteState {
    if w.err is Some {
        w
    } else {
        match m.display_name {
            Some(d) => {
                let w1 = if all_display_atext(d) {
                    spec_header_string_write(w, d)
                } else {
                    let wa = if w.col + d.len() >= 72 { spec_string_write(w, fold_bytes()) } else { w };
                    if d.len() > 499 { fail(wa, MailError::Inval) } else { spec_quoted_string_write(wa, d) }
                };
                let fold = w1.col > 1 && w1.col + m.addr_spec.len() + 3 >= 72;
                let w2 = if fold { spec_string_write(w1, fold_bytes()) } else { w1 };
                let w3 = spec_string_write(w2, if fold { seq![60u8] } else { seq![32u8, 60u8] });
                spec_string_write(spec_string_write(w3, m.addr_spec), seq![62u8])
            },
            None => {
                let w2 = if w.col + m.addr_spec.len() >= 72 { spec_string_write(w, fold_bytes()) } else { w };
                spec_string_write(w2, m.addr_spec)
            },
        }
    }
}

pub proof fn lemma_mailbox_keeps(w: WriteState, m: MailboxView)
    ensures
        keeps(w, spec_mailbox_write(w, m)),
{
    if w.err is None {
        match m.display_name {
            Some(d) => {
                lemma_hsw_keeps(w, d);
                lemma_sw_keeps(w, fold_bytes());
                let wa = if w.col + d.len() >= 72 { spec_string_write(w, fold_bytes()) } else { w };
                lemma_quoted_keeps(wa, d);
                let w1 = if all_display_atext(d) {
                    spec_header_string_write(w, d)
                } else {
                    if d.len() > 499 { fail(wa, MailError::Inval) } else { spec_quoted_string_write(wa, d) }
                };
                let fold = w1.col > 1 && w1.col + m.addr_spec.len() + 3 >= 72;
                lemma_sw_keeps(w1, fold_bytes());
                let w2 = if fold { spec_string_write(w1, fold_bytes()) } else { w1 };
                let b = if fold { seq![60u8] } else { seq![32u8, 60u8] };
                lemma_sw_keeps(w2, b);
                let w3 = spec_string_write(w2, b);
                lemma_sw_keeps(w3, m.addr_spec);
                lemma_sw_keeps(spec_string_write(w3, m.addr_spec), seq![62u8]);
            },
            None => {
                lemma_sw_keeps(w, fold_bytes());
                let w2 = if w.col + m.addr_spec.len() >= 72 { spec_string_write(w, fold_bytes()) } else { w };
                lemma_sw_keeps(w2, m.addr_spec);
            },
        }
    }
}

fn mailimf_mailbox_write_driver(out: &mut Vec<u8>, col: &mut i32, m: &mailimf_mailbox, Ghost(w): Ghost<WriteState>) -> (r: Result<(), MailError>)
    requires
        ready(old(out)@, *old(col), w),
        spec_mailbox_write(w, m@).peak <= i32::MAX,
    ensures
        ends_in(final(out)@, *final(col), spec_mailbox_write(w, m@)),
        r == outcome(spec_mailbox_write(w, m@)),
        *final(col) >= 0,
{
    let ghost target = spec_mailbox_write(w, m@);
    proof {
        lemma_mailbox_keeps(w, m@);
    }
    let addr = m.mb_addr_spec.as_slice();
    match &m.mb_display_name {
        Some(dv) => {
            let d = dv.as_slice();
            let ghost dd = d@;
            let ghost wa = if w.col + dd.len() >= 72 { spec_string_write(w, fold_bytes()) } else { w };
            let ghost w1 = if all_display_atext(dd) {
                spec_header_string_write(w, dd)
            } else {
                if dd.len() > 499 { fail(wa, MailError::Inval) } else { spec_quoted_string_write(wa, dd) }
            };
            let ghost fold_g = w1.col > 1 && w1.col + addr@.len() + 3 >= 72;
            let ghost w2 = if fold_g { spec_string_write(w1, fold_bytes()) } else { w1 };
            let ghost b = if fold_g { seq![60u8] } else { seq![32u8, 60u8] };
            let ghost w3 = spec_string_write(w2, b);
            let ghost w4 = spec_string_write(w3, addr@);
            proof {
                lemma_hsw_keeps(w, dd);
                lemma_sw_keeps(w, fold_bytes());
                lemma_quoted_keeps(wa, dd);
                lemma_sw_keeps(w1, fold_bytes());
                lemma_sw_keeps(w2, b);
                lemma_sw_keeps(w3, addr@);
                lemma_sw_keeps(w4, seq![62u8]);
            }
            if display_atext(d) {
                header_string_write_k(out, col, d, Ghost(w));
            } else {
                if reaches_72(*col, d.len(), 0) {
                    let f = fold_vec();
                    string_write_k(out, col, f.as_slice(), Ghost(w));
                }
                if d.len() > 499 {
                    return Err(MailError::Inval);
                }
                quoted_string_write_k(out, col, d, Ghost(wa));
            }
            let fold = *col > 1 && reaches_72(*col, addr.len(), 3);
            if fold {
                let f = fold_vec();
                string_write_k(out, col, f.as_slice(), Ghost(w1));
                let lt: [u8; 1] = [60u8];
                assert(lt@ == b);
                string_write_k(out, col, &lt, Ghost(w2));
            } else {
                let lt: [u8; 2] = [32u8, 60u8];
                assert(lt@ == b);
                string_write_k(out, col, &lt, Ghost(w2));
            }
            string_write_k(out, col, addr, Ghost(w3));
            let gt: [u8; 1] = [62u8];
            assert(gt@ == seq![62u8]);
            string_write_k(out, col, &gt, Ghost(w4));
        },
        None => {
            let ghost w2 = if w.col + addr@.len() >= 72 { spec_string_write(w, fold_bytes()) } else { w };
            proof {
                lemma_sw_keeps(w, fold_bytes());
                lemma_sw_keeps(w2, addr@);
            }
            if reaches_72(*col, addr.len(), 0) {
                let f = fold_vec();
                string_write_k(out, col, f.as_slice(), Ghost(w));
            }
            string_write_k(out, col, addr, Ghost(w2));
        },
    }
    Ok(())
}

pub open spec fn comma_bytes() -> Seq<u8> {
    seq![44u8, 32u8]
}

/// The mailboxes of `l` from `i` on, each after `", "` but the first.
pub open spec fn mbl_from(w: WriteState, l: Seq<MailboxView>, i: int) -> WriteState
    decreases l.len() - i,
{
    if i < 0 || i >= l.len() {
        w
    } else {
        let w1 = if i > 0 { spec_string_write(w, comma_bytes()) } else { w };
        mbl_from(spec_mailbox_write(w1, l[i]), l, i + 1)
    }
}

/// Writing a list of mailboxes, separated by `", "`.
pub open spec fn spec_mailbox_list_write(w: WriteState, l: Seq<MailboxView>) -> WriteState {
    mbl_from(w, l, 0)
}

pub proof fn lemma_mbl_keeps(w: WriteState, l: Seq<MailboxView>, i: int)
    ensures
        keeps(w, mbl_from(w, l, i)),
    decreases l.len() - i,
{
    if i < 0 || i >= l.len() {
    } else {
        lemma_sw_keeps(w, comma_bytes());
        let w1 = if i > 0 { spec_string_write(w, comma_bytes()) } else { w };
        lemma_mailbox_keeps(w1, l[i]);
        lemma_mbl_keeps(spec_mailbox_write(w1, l[i]), l, i + 1);
    }
}

/// Once an error is recorded, the rest of the list writes nothing.
pub proof fn lemma_mbl_err(w: WriteState, l: Seq<MailboxView>, i: int)
    requires
        w.err is Some,
    ensures
        mbl_from(w, l, i) == w,
    decreases l.len() - i,
{
    if 0 <= i < l.len() {
        lemma_mbl_err(w, l, i + 1);
    }
}

fn comma_vec() -> (v: Vec<u8>)
    ensures
        v@ == comma_bytes(),
{
    let v = vec![44u8, 32u8];
    assert(v@ == comma_bytes());
    v
}

fn mailbox_list_write_k(out: &mut Vec<u8>, col: &mut i32, l: &mailimf_mailbox_list, Ghost(w): Ghost<WriteState>) -> (r: Result<(), MailError>)
    requires
        ready(old(out)@, *old(col), w),
        spec_mailbox_list_write(w, l@).peak <= i32::MAX,
    ensures
        ends_in(final(out)@, *final(col), spec_mailbox_list_write(w, l@)),
        r == outcome(spec_mailbox_list_write(w, l@)),
        *final(col) >= 0,
{
    let ghost target = spec_mailbox_list_write(w, l@);
    let n = l.mb_list.len();
    let mut i: usize = 0;
    let ghost mut wc = w;
    while i < n
        invariant
            n == l@.len(),
            n == l.mb_list@.len(),
            i <= n,
            ready(out@, *col, wc),
            mbl_from(wc, l@, i as int) == target,
            target == spec_mailbox_list_write(w, l@),
            target.peak <= i32::MAX,
        decreases n - i,
    {
        let ghost w1 = if i > 0 { spec_string_write(wc, comma_bytes()) } else { wc };
        let ghost w2 = spec_mailbox_write(w1, l@[i as int]);
        proof {
            lemma_sw_keeps(wc, comma_bytes());
            lemma_mailbox_keeps(w1, l@[i as int]);
            lemma_mbl_keeps(w2, l@, i + 1);
        }
        if i > 0 {
            let c = comma_vec();
            string_write_k(out, col, c.as_slice(), Ghost(wc));
        }
        proof {
            assert(l@[i as int] == l.mb_list@[i as int]@);
            assert(mbl_from(wc, l@, i as int) == mbl_from(w2, l@, i + 1));
        }
        let r = mailimf_mailbox_write_driver(out, col, &l.mb_list[i], Ghost(w1));
        proof {
            wc = w2;
        }
        if r.is_err() {
            proof {
                lemma_mbl_err(w2, l@, i + 1);
            }
            return r;
        }
        i = i + 1;
    }
    Ok(())
}

/// mailimf_mailbox_list_write: writes the mailboxes separated by `", "`.
pub fn mailimf_mailbox_list_write_driver(out: &mut Vec<u8>, col: &mut i32, l: &mailimf_mailbox_list) -> (r: Result<(), MailError>)
    requires
        *old(col) >= 0,
        spec_mailbox_list_write(start_state(old(out)@, *old(col) as int), l@).peak <= i32::MAX,
    ensures
        ends_in(final(out)@, *final(col), spec_mailbox_list_write(start_state(old(out)@, *old(col) as int), l@)),
        r == outcome(spec_mailbox_list_write(start_state(old(out)@, *old(col) as int), l@)),
{
    mailbox_list_write_k(out, col, l, Ghost(start_state(out@, *col as int)))
}

/// Writing a group: its display name as a header value, `": "`, its
/// mailboxes and `";"`.
pub open spec fn spec_group_write(w: WriteState, g: GroupView) -> WriteState {
    let w1 = spec_string_write(spec_header_string_write(w, g.display_name), seq![58u8, 32u8]);
    spec_string_write(spec_mailbox_list_write(w1, g.mb_list), seq![59u8])
}

pub proof fn lemma_group_keeps(w: WriteState, g: GroupView)
    ensures
        keeps(w, spec_group_write(w, g)),
{
    lemma_hsw_keeps(w, g.display_name);
    let w0 = spec_header_string_write(w, g.display_name);
    lemma_sw_keeps(w0, seq![58u8, 32u8]);
    let w1 = spec_string_write(w0, seq![58u8, 32u8]);
    lemma_mbl_keeps(w1, g.mb_list, 0);
    lemma_sw_keeps(spec_mailbox_list_write(w1, g.mb_list), seq![59u8]);
}

fn mailimf_group_write_driver(out: &mut Vec<u8>, col: &mut i32, g: &mailimf_group, Ghost(w): Ghost<WriteState>) -> (r: Result<(), MailError>)
    requires
        ready(old(out)@, *old(col), w),
        spec_group_write(w, g@).peak <= i32::MAX,
    ensures
        ends_in(final(out)@, *final(col), spec_group_write(w, g@)),
        r == outcome(spec_group_write(w, g@)),
        *final(col) >= 0,
{
    let ghost w0 = spec_header_string_write(w, g@.display_name);
    let ghost w1 = spec_string_write(w0, seq![58u8, 32u8]);
    let ghost w2 = spec_mailbox_list_write(w1, g@.mb_list);
    proof {
        lemma_hsw_keeps(w, g@.display_name);
        lemma_sw_keeps(w0, seq![58u8, 32u8]);
        lemma_mbl_keeps(w1, g@.mb_list, 0);
        lemma_sw_keeps(w2, seq![59u8]);
    }
    header_string_write_k(out, col, g.grp_display_name.as_slice(), Ghost(w));
    let cs: [u8; 2] = [58u8, 32u8];
    assert(cs@ == seq![58u8, 32u8]);
    string_write_k(out, col, &cs, Ghost(w0));
    let r = mailbox_list_write_k(out, col, &g.grp_mb_list, Ghost(w1));
    if r.is_err() {
        return r;
    }
    let sc: [u8; 1] = [59u8];
    assert(sc@ == seq![59u8]);
    string_write_k(out, col, &sc, Ghost(w2));
    Ok(())
}

/// Writing an address: a mailbox or a group.
pub open spec fn spec_address_write(w: WriteState, a: AddressView) -> WriteState {
    match a {
        AddressView::Mailbox(m) => spec_mailbox_write(w, m),
        AddressView::Group(g) => spec_group_write(w, g),
    }
}

pub proof fn lemma_address_keeps(w: WriteState, a: AddressView)
    ensures
        keeps(w, spec_address_write(w, a)),
{
    match a {
        AddressView::Mailbox(m) => lemma_mailbox_keeps(w, m),
        AddressView::Group(g) => lemma_group_keeps(w, g),
    }
}

fn mailimf_address_write_driver(out: &mut Vec<u8>, col: &mut i32, a: &mailimf_address, Ghost(w): Ghost<WriteState>) -> (r: Result<(), MailError>)
    requires
        ready(old(out)@, *old(col), w),
        spec_address_write(w, a@).peak <= i32::MAX,
    ensures
        ends_in(final(out)@, *final(col), spec_address_write(w, a@)),
        r == outcome(spec_address_write(w, a@)),
        *final(col) >= 0,
{
    match a {
        mailimf_address::Mailbox(m) => mailimf_mailbox_write_driver(out, col, m, Ghost(w)),
        mailimf_address::Group(g) => mailimf_group_write_driver(out, col, g, Ghost(w)),
    }
}

/// The addresses of `l` from `i` on, each after `", "` but the first.
pub open spec fn adl_from(w: WriteState, l: Seq<AddressView>, i: int) -> WriteState
    decreases l.len() - i,
{
    if i < 0 || i >= l.len() {
        w
    } else {
        let w1 = if i > 0 { spec_string_write(w, comma_bytes()) } else { w };
        adl_from(spec_address_write(w1, l[i]), l, i + 1)
    }
}

/// Writing a list of addresses, separated by `", "`.
pub open spec fn spec_address_list_write(w: WriteState, l: Seq<AddressView>) -> WriteState {
    adl_from(w, l, 0)
}

pub proof fn lemma_adl_keeps(w: WriteState, l: Seq<AddressView>, i: int)
    ensures
        keeps(w, adl_from(w, l, i)),
    decreases l.len() - i,
{
    if i < 0 || i >= l.len() {
    } else {
        lemma_sw_keeps(w, comma_bytes());
        let w1 = if i > 0 { spec_string_write(w, comma_bytes()) } else { w };
        lemma_address_keeps(w1, l[i]);
        lemma_adl_keeps(spec_address_write(w1, l[i]), l, i + 1);
    }
}

/// Once an error is recorded, the rest of the list writes nothing.
pub proof fn lemma_adl_err(w: WriteState, l: Seq<AddressView>, i: int)
    requires
        w.err is Some,
    ensures
        adl_from(w, l, i) == w,
    decreases l.len() - i,
{
    if 0 <= i < l.len() {
        lemma_address_keeps(w, l[i]);
        lemma_adl_err(w, l, i + 1);
    }
}

fn address_list_write_k(out: &mut Vec<u8>, col: &mut i32, l: &mailimf_address_list, Ghost(w): Ghost<WriteState>) -> (r: Result<(), MailError>)
    requires
        ready(old(out)@, *old(col), w),
        spec_address_list_write(w, l@).peak <= i32::MAX,
    ensures
        ends_in(final(out)@, *final(col), spec_address_list_write(w, l@)),
        r == outcome(spec_address_list_write(w, l@)),
        *final(col) >= 0,
{
    let ghost target = spec_address_list_write(w, l@);
    let n = l.ad_list.len();
    let mut i: usize = 0;
    let ghost mut wc = w;
    while i < n
        invariant
            n == l@.len(),
            n == l.ad_list@.len(),
            i <= n,
            ready(out@, *col, wc),
            adl_from(wc, l@, i as int) == target,
            target == spec_address_list_write(w, l@),
            target.peak <= i32::MAX,
        decreases n - i,
    {
        let ghost w1 = if i > 0 { spec_string_write(wc, comma_bytes()) } else { wc };
        let ghost w2 = spec_address_write(w1, l@[i as int]);
        proof {
            lemma_sw_keeps(wc, comma_bytes());
            lemma_address_keeps(w1, l@[i as int]);
            lemma_adl_keeps(w2, l@, i + 1);
        }
        if i > 0 {
            let c = comma_vec();
            string_write_k(out, col, c.as_slice(), Ghost(wc));
        }
        proof {
            assert(l@[i as int] == l.ad_list@[i as int]@);
            assert(adl_from(wc, l@, i as int) == adl_from(w2, l@, i + 1));
        }
        let r = mailimf_address_write_driver(out, col, &l.ad_list[i], Ghost(w1));
        proof {
            wc = w2;
        }
        if r.is_err() {
            proof {
                lemma_adl_err(w2, l@, i + 1);
            }
            return r;
        }
        i = i + 1;
    }
    Ok(())
}

/// mailimf_address_list_write: writes the addresses separated by `", "`.
pub fn mailimf_address_list_write_driver(out: &mut Vec<u8>, col: &mut i32, l: &mailimf_address_list) -> (r: Result<(), MailError>)
    requires
        *old(col) >= 0,
        spec_address_list_write(start_state(old(out)@, *old(col) as int), l@).peak <= i32::MAX,
    ensures
        ends_in(final(out)@, *final(col), spec_address_list_write(start_state(old(out)@, *old(col) as int), l@)),
        r == outcome(spec_address_list_write(start_state(old(out)@, *old(col) as int), l@)),
{
    address_list_write_k(out, col, l, Ghost(start_state(out@, *col as int)))
}

// ---------------------------------------------------------------------------
// Dates
// ---------------------------------------------------------------------------

/// The decimal digits of `n`.
pub open spec fn dec_digits(n: nat) -> Seq<u8>
    decreases n,
{
    if n < 10 {
        seq![(48 + n) as u8]
    } else {
        dec_digits(n / 10) + seq![(48 + n % 10) as u8]
    }
}

/// `k` zeros (none when `k` is not positive).
pub open spec fn zeros(k: int) -> Seq<u8> {
    Seq::new(if k > 0 { k as nat } else { 0 }, |j: int| 48u8)
}

pub open spec fn abs_int(n: int) -> nat {
    if n < 0 { (-n) as nat } else { n as nat }
}

/// `n` in decimal, with a minus sign when negative.
pub open spec fn fmt_int(n: int) -> Seq<u8> {
    if n < 0 { seq![45u8] + dec_digits(abs_int(n)) } else { dec_digits(abs_int(n)) }
}

/// `n` in decimal, padded with zeros after the sign to two characters.
pub open spec fn fmt_two(n: int) -> Seq<u8> {
    let d = dec_digits(abs_int(n));
    if n < 0 { seq![45u8] + zeros(1 - d.len()) + d } else { zeros(2 - d.len()) + d }
}

/// A zone: always signed, padded with zeros after the sign to five characters.
pub open spec fn fmt_zone(n: int) -> Seq<u8> {
    let d = dec_digits(abs_int(n));
    (if n < 0 { seq![45u8] } else { seq![43u8] }) + zeros(4 - d.len()) + d
}

/// Division and remainder of 32-bit integers, which round toward zero.
pub open spec fn tdiv(a: int, b: int) -> int {
    if a >= 0 { a / b } else { -((-a) / b) }
}

pub open spec fn trem(a: int, b: int) -> int {
    a - tdiv(a, b) * b
}

pub open spec fn month_offset(m: int) -> int {
    if m == 1 { 0 } else if m == 2 { 3 } else if m == 3 { 2 } else if m == 4 { 5 }
    else if m == 5 { 0 } else if m == 6 { 3 } else if m == 7 { 5 } else if m == 8 { 1 }
    else if m == 9 { 4 } else if m == 10 { 6 } else if m == 11 { 2 } else { 4 }
}

pub open spec fn fits_i32(v: int) -> bool {
    i32::MIN <= v <= i32::MAX
}

/// The sum whose remainder by 7 is the day of the week, and whether each
/// step of it fits in an `i32`.
pub open spec fn dow_sum(d: mailimf_date_time) -> int {
    let y = d.dt_year - (if d.dt_month < 3 { 1int } else { 0int });
    y + tdiv(y, 4) - tdiv(y, 100) + tdiv(y, 400) + month_offset(d.dt_month as int) + d.dt_day
}

/// A date that can be written: its month is one of the twelve, and the day
/// of the week is computed without overflow and comes out not negative.
pub open spec fn date_writable(d: mailimf_date_time) -> bool {
    let y = d.dt_year - (if d.dt_month < 3 { 1int } else { 0int });
    &&& 1 <= d.dt_month <= 12
    &&& fits_i32(y + tdiv(y, 4))
    &&& fits_i32(y + tdiv(y, 4) - tdiv(y, 100))
    &&& fits_i32(y + tdiv(y, 4) - tdiv(y, 100) + tdiv(y, 400))
    &&& fits_i32(y + tdiv(y, 4) - tdiv(y, 100) + tdiv(y, 400) + month_offset(d.dt_month as int))
    &&& 0 <= dow_sum(d) <= i32::MAX
}

/// The day of the week of a date (0 for Sunday).
pub open spec fn spec_day_of_week(d: mailimf_date_time) -> int {
    trem(dow_sum(d), 7)
}

/// A date as text: `Www, D Mmm YYYY HH:MM:SS +ZZZZ`.
pub open spec fn date_text(d: mailimf_date_time) -> Seq<u8> {
    day_name(spec_day_of_week(d) as i32) + seq![44u8, 32u8] + fmt_int(d.dt_day as int) + seq![32u8]
        + month_name(d.dt_month) + seq![32u8] + fmt_int(d.dt_year as int) + seq![32u8]
        + fmt_two(d.dt_hour as int) + seq![58u8] + fmt_two(d.dt_min as int) + seq![58u8]
        + fmt_two(d.dt_sec as int) + seq![32u8] + fmt_zone(d.dt_zone as int)
}

/// Writing a date.
pub open spec fn spec_date_time_write(w: WriteState, d: mailimf_date_time) -> WriteState {
    spec_string_write(w, date_text(d))
}

fn push_digits(out: &mut Vec<u8>, n: u32)
    ensures
        final(out)@ == old(out)@ + dec_digits(n as nat),
    decreases n,
{
    if n >= 10 {
        push_digits(out, n / 10);
    }
    out.push((48 + n % 10) as u8);
    proof {
        if n >= 10 {
            assert(final(out)@ =~= old(out)@ + dec_digits(n as nat));
        } else {
            assert(final(out)@ =~= old(out)@ + dec_digits(n as nat));
        }
    }
}

fn magnitude(n: i32) -> (m: u32)
    ensures
        m as nat == abs_int(n as int),
{
    if n < 0 {
        (-(n as i64)) as u32
    } else {
        n as u32
    }
}

fn push_zeros(out: &mut Vec<u8>, k: usize)
    ensures
        final(out)@ == old(out)@ + zeros(k as int),
{
    let mut i: usize = 0;
    while i < k
        invariant
            i <= k,
            out@ == old(out)@ + zeros(i as int),
        decreases k - i,
    {
        out.push(48u8);
        proof {
            assert(out@ =~= old(out)@ + zeros(i + 1));
        }
        i = i + 1;
    }
}

fn push_int(out: &mut Vec<u8>, n: i32)
    ensures
        final(out)@ == old(out)@ + fmt_int(n as int),
{
    if n < 0 {
        out.push(45u8);
    }
    push_digits(out, magnitude(n));
    proof {
        assert(final(out)@ =~= old(out)@ + fmt_int(n as int));
    }
}

fn digits_of(n: i32) -> (d: Vec<u8>)
    ensures
        d@ == dec_digits(abs_int(n as int)),
{
    let mut d: Vec<u8> = Vec::new();
    push_digits(&mut d, magnitude(n));
    assert(d@ =~= dec_digits(abs_int(n as int)));
    d
}

fn push_two(out: &mut Vec<u8>, n: i32)
    ensures
        final(out)@ == old(out)@ + fmt_two(n as int),
{
    let d = digits_of(n);
    if n < 0 {
        out.push(45u8);
        if d.len() < 1 {
            push_zeros(out, 1 - d.len());
        }
    } else if d.len() < 2 {
        push_zeros(out, 2 - d.len());
    }
    let ghost before = out@;
    let mut i: usize = 0;
    while i < d.len()
        invariant
            i <= d@.len(),
            out@ == before + d@.take(i as int),
        decreases d@.len() - i,
    {
        out.push(d[i]);
        proof {
            assert(d@.take(i + 1) =~= d@.take(i as int).push(d@[i as int]));
            assert(out@ =~= before + d@.take(i + 1));
        }
        i = i + 1;
    }
    proof {
        assert(d@.take(d@.len() as int) =~= d@);
        assert(zeros(1 - d@.len()) =~= Seq::<u8>::empty() || d@.len() < 1);
        if n < 0 {
            assert(final(out)@ =~= old(out)@ + fmt_two(n as int));
        } else {
            assert(final(out)@ =~= old(out)@ + fmt_two(n as int));
        }
    }
}

fn push_zone(out: &mut Vec<u8>, n: i32)
    ensures
        final(out)@ == old(out)@ + fmt_zone(n as int),
{
    let d = digits_of(n);
    if n < 0 {
        out.push(45u8);
    } else {
        out.push(43u8);
    }
    if d.len() < 4 {
        push_zeros(out, 4 - d.len());
    }
    let ghost before = out@;
    let mut i: usize = 0;
    while i < d.len()
        invariant
            i <= d@.len(),
            out@ == before + d@.take(i as int),
        decreases d@.len() - i,
    {
        out.push(d[i]);
        proof {
            assert(d@.take(i + 1) =~= d@.take(i as int).push(d@[i as int]));
            assert(out@ =~= before + d@.take(i + 1));
        }
        i = i + 1;
    }
    proof {
        assert(d@.take(d@.len() as int) =~= d@);
        assert(final(out)@ =~= old(out)@ + fmt_zone(n as int));
    }
}

fn push_bytes(out: &mut Vec<u8>, b: &[u8])
    ensures
        final(out)@ == old(out)@ + b@,
{
    let mut i: usize = 0;
    while i < b.len()
        invariant
            i <= b@.len(),
            out@ == old(out)@ + b@.take(i as int),
        decreases b@.len() - i,
    {
        out.push(b[i]);
        proof {
            assert(b@.take(i + 1) =~= b@.take(i as int).push(b@[i as int]));
            assert(out@ =~= old(out)@ + b@.take(i + 1));
        }
        i = i + 1;
    }
    proof {
        assert(b@.take(b@.len() as int) =~= b@);
    }
}

/// The day of the week of a date that can be written (0 for Sunday).
fn dayofweek(d: &mailimf_date_time) -> (r: i32)
    requires
        date_writable(*d),
    ensures
        r as int == spec_day_of_week(*d),
        0 <= r < 7,
{
    let offsets: [i32; 12] = [0, 3, 2, 5, 0, 3, 5, 1, 4, 6, 2, 4];
    let m = d.dt_month;
    let y: i32 = if m < 3 { d.dt_year - 1 } else { d.dt_year };
    assert(offsets@[m - 1] == month_offset(m as int));
    let s = y + y / 4 - y / 100 + y / 400 + offsets[(m - 1) as usize] + d.dt_day;
    s % 7
}

fn date_text_vec(d: &mailimf_date_time) -> (v: Vec<u8>)
    requires
        date_writable(*d),
    ensures
        v@ == date_text(*d),
{
    let mut v: Vec<u8> = Vec::new();
    let wd = dayofweek(d);
    let dn = day_name_bytes(wd);
    push_bytes(&mut v, &dn);
    let cs: [u8; 2] = [44u8, 32u8];
    push_bytes(&mut v, &cs);
    push_int(&mut v, d.dt_day);
    v.push(32u8);
    let mn = month_name_bytes(d.dt_month);
    push_bytes(&mut v, &mn);
    v.push(32u8);
    push_int(&mut v, d.dt_year);
    v.push(32u8);
    push_two(&mut v, d.dt_hour);
    v.push(58u8);
    push_two(&mut v, d.dt_min);
    v.push(58u8);
    push_two(&mut v, d.dt_sec);
    v.push(32u8);
    push_zone(&mut v, d.dt_zone);
    assert(cs@ == seq![44u8, 32u8]);
    assert(v@ =~= date_text(*d));
    v
}

fn mailimf_date_time_write_driver(out: &mut Vec<u8>, col: &mut i32, d: &mailimf_date_time, Ghost(w): Ghost<WriteState>)
    requires
        ready(old(out)@, *old(col), w),
        date_writable(*d),
        spec_date_time_write(w, *d).peak <= i32::MAX,
    ensures
        ends_in(final(out)@, *final(col), spec_date_time_write(w, *d)),
        *final(col) >= 0,
        spec_date_time_write(w, *d).err is None,
{
    proof {
        lemma_sw_keeps(w, date_text(*d));
    }
    let t = date_text_vec(d);
    proof {
        lemma_sw_keeps(w, t@);
    }
    string_write_k(out, col, t.as_slice(), Ghost(w));
}

// ---------------------------------------------------------------------------
// Fields
// ---------------------------------------------------------------------------

/// The message identifiers of `l` from `i` on, each in angle brackets and
/// after a space but the first; one that would reach column 72 goes on a
/// folded line instead.
pub open spec fn mil_from(w: WriteState, l: Seq<Seq<u8>>, i: int, first: bool) -> WriteState
    decreases l.len() - i,
{
    if i < 0 || i >= l.len() {
        w
    } else {
        let fold = !first && w.col > 1 && w.col + l[i].len() >= 72;
        let w1 = if fold { spec_string_write(w, fold_bytes()) } else { w };
        let w2 = if !(first || fold) { spec_string_write(w1, seq![32u8]) } else { w1 };
        let w3 = spec_string_write(spec_string_write(spec_string_write(w2, seq![60u8]), l[i]), seq![62u8]);
        mil_from(w3, l, i + 1, false)
    }
}

pub proof fn lemma_mil_keeps(w: WriteState, l: Seq<Seq<u8>>, i: int, first: bool)
    ensures
        keeps(w, mil_from(w, l, i, first)),
        w.err is None ==> mil_from(w, l, i, first).err is None,
    decreases l.len() - i,
{
    if 0 <= i < l.len() {
        let fold = !first && w.col > 1 && w.col + l[i].len() >= 72;
        lemma_sw_keeps(w, fold_bytes());
        let w1 = if fold { spec_string_write(w, fold_bytes()) } else { w };
        lemma_sw_keeps(w1, seq![32u8]);
        let w2 = if !(first || fold) { spec_string_write(w1, seq![32u8]) } else { w1 };
        lemma_sw_keeps(w2, seq![60u8]);
        let wa = spec_string_write(w2, seq![60u8]);
        lemma_sw_keeps(wa, l[i]);
        let wb = spec_string_write(wa, l[i]);
        lemma_sw_keeps(wb, seq![62u8]);
        lemma_mil_keeps(spec_string_write(wb, seq![62u8]), l, i + 1, false);
    }
}

fn one_byte(b: u8) -> (v: [u8; 1])
    ensures
        v@ == seq![b],
{
    let v: [u8; 1] = [b];
    assert(v@ =~= seq![b]);
    v
}

fn mailimf_msg_id_list_write_driver(out: &mut Vec<u8>, col: &mut i32, l: &Vec<Vec<u8>>, Ghost(w): Ghost<WriteState>)
    requires
        ready(old(out)@, *old(col), w),
        mil_from(w, bytes_list_view(l@), 0, true).peak <= i32::MAX,
    ensures
        ends_in(final(out)@, *final(col), mil_from(w, bytes_list_view(l@), 0, true)),
        *final(col) >= 0,
        mil_from(w, bytes_list_view(l@), 0, true).err is None,
{
    proof {
        lemma_mil_keeps(w, bytes_list_view(l@), 0, true);
    }
    let ghost v = bytes_list_view(l@);
    let ghost target = mil_from(w, v, 0, true);
    let n = l.len();
    let mut i: usize = 0;
    let mut first = true;
    let ghost mut wc = w;
    while i < n
        invariant
            n == l@.len(),
            v == bytes_list_view(l@),
            i <= n,
            ready(out@, *col, wc),
            mil_from(wc, v, i as int, first) == target,
            target.peak <= i32::MAX,
        decreases n - i,
    {
        let id = l[i].as_slice();
        proof {
            assert(v[i as int] == id@);
        }
        let ghost fold_g = !first && wc.col > 1 && wc.col + id@.len() >= 72;
        let ghost w1 = if fold_g { spec_string_write(wc, fold_bytes()) } else { wc };
        let ghost w2 = if !(first || fold_g) { spec_string_write(w1, seq![32u8]) } else { w1 };
        let ghost wa = spec_string_write(w2, seq![60u8]);
        let ghost wb = spec_string_write(wa, id@);
        let ghost w3 = spec_string_write(wb, seq![62u8]);
        proof {
            lemma_sw_keeps(wc, fold_bytes());
            lemma_sw_keeps(w1, seq![32u8]);
            lemma_sw_keeps(w2, seq![60u8]);
            lemma_sw_keeps(wa, id@);
            lemma_sw_keeps(wb, seq![62u8]);
            lemma_mil_keeps(w3, v, i + 1, false);
        }
        let mut fold = false;
        if !first && *col > 1 && reaches_72(*col, id.len(), 0) {
            let f = fold_vec();
            string_write_k(out, col, f.as_slice(), Ghost(wc));
            fold = true;
        }
        if !(first || fold) {
            let sp = one_byte(32u8);
            string_write_k(out, col, &sp, Ghost(w1));
        }
        let lt = one_byte(60u8);
        string_write_k(out, col, &lt, Ghost(w2));
        string_write_k(out, col, id, Ghost(wa));
        let gt = one_byte(62u8);
        string_write_k(out, col, &gt, Ghost(wb));
        proof {
            wc = w3;
        }
        first = false;
        i = i + 1;
    }
}

/// The keywords of `l` from `i` on, each a header value after `", "` but the first.
pub open spec fn kw_from(w: WriteState, l: Seq<Seq<u8>>, i: int) -> WriteState
    decreases l.len() - i,
{
    if i < 0 || i >= l.len() {
        w
    } else {
        let w1 = if i > 0 { spec_string_write(w, comma_bytes()) } else { w };
        kw_from(spec_header_string_write(w1, l[i]), l, i + 1)
    }
}

pub proof fn lemma_kw_keeps(w: WriteState, l: Seq<Seq<u8>>, i: int)
    ensures
        keeps(w, kw_from(w, l, i)),
        w.err is None && w.col >= 0 ==> kw_from(w, l, i).err is None,
    decreases l.len() - i,
{
    if 0 <= i < l.len() {
        lemma_sw_keeps(w, comma_bytes());
        let w1 = if i > 0 { spec_string_write(w, comma_bytes()) } else { w };
        lemma_hsw_keeps(w1, l[i]);
        lemma_kw_keeps(spec_header_string_write(w1, l[i]), l, i + 1);
    }
}

fn keywords_list_write_k(out: &mut Vec<u8>, col: &mut i32, l: &Vec<Vec<u8>>, Ghost(w): Ghost<WriteState>)
    requires
        ready(old(out)@, *old(col), w),
        kw_from(w, bytes_list_view(l@), 0).peak <= i32::MAX,
    ensures
        ends_in(final(out)@, *final(col), kw_from(w, bytes_list_view(l@), 0)),
        *final(col) >= 0,
        kw_from(w, bytes_list_view(l@), 0).err is None,
{
    proof {
        lemma_kw_keeps(w, bytes_list_view(l@), 0);
    }
    let ghost v = bytes_list_view(l@);
    let ghost target = kw_from(w, v, 0);
    let n = l.len();
    let mut i: usize = 0;
    let ghost mut wc = w;
    while i < n
        invariant
            n == l@.len(),
            v == bytes_list_view(l@),
            i <= n,
            ready(out@, *col, wc),
            kw_from(wc, v, i as int) == target,
            target.peak <= i32::MAX,
        decreases n - i,
    {
        let k = l[i].as_slice();
        proof {
            assert(v[i as int] == k@);
        }
        let ghost w1 = if i > 0 { spec_string_write(wc, comma_bytes()) } else { wc };
        let ghost w2 = spec_header_string_write(w1, k@);
        proof {
            lemma_sw_keeps(wc, comma_bytes());
            lemma_hsw_keeps(w1, k@);
            lemma_kw_keeps(w2, v, i + 1);
        }
        if i > 0 {
            let c = comma_vec();
            string_write_k(out, col, c.as_slice(), Ghost(wc));
        }
        header_string_write_k(out, col, k, Ghost(w1));
        proof {
            wc = w2;
        }
        i = i + 1;
    }
}

/// The name of a field that is not an optional one.
pub open spec fn field_name(f: FieldView) -> HeaderName {
    match f {
        FieldView::ReturnPath(_) => HeaderName::ReturnPath,
        FieldView::ResentDate(_) => HeaderName::ResentDate,
        FieldView::ResentFrom(_) => HeaderName::ResentFrom,
        FieldView::ResentSender(_) => HeaderName::ResentSender,
        FieldView::ResentTo(_) => HeaderName::ResentTo,
        FieldView::ResentCc(_) => HeaderName::ResentCc,
        FieldView::ResentBcc(_) => HeaderName::ResentBcc,
        FieldView::ResentMsgId(_) => HeaderName::ResentMsgId,
        FieldView::OrigDate(_) => HeaderName::OrigDate,
        FieldView::From(_) => HeaderName::From,
        FieldView::Sender(_) => HeaderName::Sender,
        FieldView::ReplyTo(_) => HeaderName::ReplyTo,
        FieldView::To(_) => HeaderName::To,
        FieldView::Cc(_) => HeaderName::Cc,
        FieldView::Bcc(_) => HeaderName::Bcc,
        FieldView::MessageId(_) => HeaderName::MessageId,
        FieldView::InReplyTo(_) => HeaderName::InReplyTo,
        FieldView::References(_) => HeaderName::References,
        FieldView::Subject(_) => HeaderName::Subject,
        FieldView::Comments(_) => HeaderName::Comments,
        FieldView::Keywords(_) => HeaderName::Keywords,
        FieldView::OptionalField(_) => HeaderName::Keywords,
    }
}

/// What follows the name of a field that is not an optional one.
pub open spec fn field_body(w: WriteState, f: FieldView) -> WriteState {
    match f {
        FieldView::ReturnPath(p) => spec_path_write(w, p),
        FieldView::ResentDate(d) => spec_date_time_write(w, d),
        FieldView::OrigDate(d) => spec_date_time_write(w, d),
        FieldView::ResentFrom(l) => spec_mailbox_list_write(w, l),
        FieldView::From(l) => spec_mailbox_list_write(w, l),
        FieldView::ResentSender(m) => spec_mailbox_write(w, m),
        FieldView::Sender(m) => spec_mailbox_write(w, m),
        FieldView::ResentTo(l) => spec_address_list_write(w, l),
        FieldView::ResentCc(l) => spec_address_list_write(w, l),
        FieldView::ReplyTo(l) => spec_address_list_write(w, l),
        FieldView::To(l) => spec_address_list_write(w, l),
        FieldView::Cc(l) => spec_address_list_write(w, l),
        FieldView::ResentBcc(o) => match o {
            Some(l) => spec_address_list_write(w, l),
            None => w,
        },
        FieldView::Bcc(o) => match o {
            Some(l) => spec_address_list_write(w, l),
            None => w,
        },
        FieldView::ResentMsgId(v) => spec_string_write(spec_string_write(spec_string_write(w, seq![60u8]), v), seq![62u8]),
        FieldView::MessageId(v) => spec_string_write(spec_string_write(spec_string_write(w, seq![60u8]), v), seq![62u8]),
        FieldView::InReplyTo(l) => mil_from(w, l, 0, true),
        FieldView::References(l) => mil_from(w, l, 0, true),
        FieldView::Subject(v) => spec_header_string_write(w, v),
        FieldView::Comments(v) => spec_header_string_write(w, v),
        FieldView::Keywords(l) => kw_from(w, l, 0),
        FieldView::OptionalField(_) => w,
    }
}

/// A field that can be written: a date in it can be written.
pub open spec fn field_writable(f: FieldView) -> bool {
    match f {
        FieldView::ResentDate(d) => date_writable(d),
        FieldView::OrigDate(d) => date_writable(d),
        _ => true,
    }
}

/// Writing an optional field: refused when its name and `": "` pass 998
/// bytes, else its name, `": "`, its value as a header value, and CRLF.
pub open spec fn spec_optional_field_write(w: WriteState, o: OptionalFieldView) -> WriteState {
    if w.err is Some {
        w
    } else if o.name.len() + 2 > 998 {
        fail(w, MailError::Inval)
    } else {
        let w1 = spec_string_write(spec_string_write(w, o.name), seq![58u8, 32u8]);
        spec_string_write(spec_header_string_write(w1, o.value), crlf_bytes())
    }
}

/// Writing a field: its name, `": "`, what it holds, and CRLF.
pub open spec fn spec_field_write(w: WriteState, f: FieldView) -> WriteState {
    if w.err is Some {
        w
    } else {
        match f {
            FieldView::OptionalField(o) => spec_optional_field_write(w, o),
            _ => {
                let w1 = spec_string_write(w, header_name(field_name(f)) + seq![58u8, 32u8]);
                spec_string_write(field_body(w1, f), crlf_bytes())
            },
        }
    }
}

pub proof fn lemma_field_body_keeps(w: WriteState, f: FieldView)
    ensures
        keeps(w, field_body(w, f)),
{
    match f {
        FieldView::ReturnPath(p) => {
            lemma_sw_keeps(w, seq![60u8]);
            let w1 = spec_string_write(w, seq![60u8]);
            let w2 = match p {
                Some(a) => spec_string_write(w1, a),
                None => w1,
            };
            match p {
                Some(a) => lemma_sw_keeps(w1, a),
                None => {},
            }
            lemma_sw_keeps(w2, seq![62u8]);
        },
        FieldView::ResentDate(d) => lemma_sw_keeps(w, date_text(d)),
        FieldView::OrigDate(d) => lemma_sw_keeps(w, date_text(d)),
        FieldView::ResentFrom(l) => lemma_mbl_keeps(w, l, 0),
        FieldView::From(l) => lemma_mbl_keeps(w, l, 0),
        FieldView::ResentSender(m) => lemma_mailbox_keeps(w, m),
        FieldView::Sender(m) => lemma_mailbox_keeps(w, m),
        FieldView::ResentTo(l) => lemma_adl_keeps(w, l, 0),
        FieldView::ResentCc(l) => lemma_adl_keeps(w, l, 0),
        FieldView::ReplyTo(l) => lemma_adl_keeps(w, l, 0),
        FieldView::To(l) => lemma_adl_keeps(w, l, 0),
        FieldView::Cc(l) => lemma_adl_keeps(w, l, 0),
        FieldView::ResentBcc(o) => match o {
            Some(l) => lemma_adl_keeps(w, l, 0),
            None => {},
        },
        FieldView::Bcc(o) => match o {
            Some(l) => lemma_adl_keeps(w, l, 0),
            None => {},
        },
        FieldView::ResentMsgId(v) => {
            lemma_sw_keeps(w, seq![60u8]);
            lemma_sw_keeps(spec_string_write(w, seq![60u8]), v);
            lemma_sw_keeps(spec_string_write(spec_string_write(w, seq![60u8]), v), seq![62u8]);
        },
        FieldView::MessageId(v) => {
            lemma_sw_keeps(w, seq![60u8]);
            lemma_sw_keeps(spec_string_write(w, seq![60u8]), v);
            lemma_sw_keeps(spec_string_write(spec_string_write(w, seq![60u8]), v), seq![62u8]);
        },
        FieldView::InReplyTo(l) => lemma_mil_keeps(w, l, 0, true),
        FieldView::References(l) => lemma_mil_keeps(w, l, 0, true),
        FieldView::Subject(v) => lemma_hsw_keeps(w, v),
        FieldView::Comments(v) => lemma_hsw_keeps(w, v),
        FieldView::Keywords(l) => lemma_kw_keeps(w, l, 0),
        FieldView::OptionalField(_) => {},
    }
}

pub proof fn lemma_field_keeps(w: WriteState, f: FieldView)
    ensures
        keeps(w, spec_field_write(w, f)),
{
    if w.err is None {
        match f {
            FieldView::OptionalField(o) => {
                lemma_sw_keeps(w, o.name);
                let w0 = spec_string_write(w, o.name);
                lemma_sw_keeps(w0, seq![58u8, 32u8]);
                let w1 = spec_string_write(w0, seq![58u8, 32u8]);
                lemma_hsw_keeps(w1, o.value);
                lemma_sw_keeps(spec_header_string_write(w1, o.value), crlf_bytes());
            },
            _ => {
                let p = header_name(field_name(f)) + seq![58u8, 32u8];
                lemma_sw_keeps(w, p);
                let w1 = spec_string_write(w, p);
                lemma_field_body_keeps(w1, f);
                lemma_sw_keeps(field_body(w1, f), crlf_bytes());
            },
        }
    }
}

fn field_kind(f: &mailimf_field) -> (k: HeaderName)
    ensures
        k == field_name(f@),
{
    match f {
        mailimf_field::ReturnPath(_) => HeaderName::ReturnPath,
        mailimf_field::ResentDate(_) => HeaderName::ResentDate,
        mailimf_field::ResentFrom(_) => HeaderName::ResentFrom,
        mailimf_field::ResentSender(_) => HeaderName::ResentSender,
        mailimf_field::ResentTo(_) => HeaderName::ResentTo,
        mailimf_field::ResentCc(_) => HeaderName::ResentCc,
        mailimf_field::ResentBcc(_) => HeaderName::ResentBcc,
        mailimf_field::ResentMsgId(_) => HeaderName::ResentMsgId,
        mailimf_field::OrigDate(_) => HeaderName::OrigDate,
        mailimf_field::From(_) => HeaderName::From,
        mailimf_field::Sender(_) => HeaderName::Sender,
        mailimf_field::ReplyTo(_) => HeaderName::ReplyTo,
        mailimf_field::To(_) => HeaderName::To,
        mailimf_field::Cc(_) => HeaderName::Cc,
        mailimf_field::Bcc(_) => HeaderName::Bcc,
        mailimf_field::MessageId(_) => HeaderName::MessageId,
        mailimf_field::InReplyTo(_) => HeaderName::InReplyTo,
        mailimf_field::References(_) => HeaderName::References,
        mailimf_field::Subject(_) => HeaderName::Subject,
        mailimf_field::Comments(_) => HeaderName::Comments,
        mailimf_field::Keywords(_) => HeaderName::Keywords,
        mailimf_field::OptionalField(_) => HeaderName::Keywords,
    }
}

fn bracketed_write_k(out: &mut Vec<u8>, col: &mut i32, v: &[u8], Ghost(w): Ghost<WriteState>)
    requires
        ready(old(out)@, *old(col), w),
        spec_string_write(spec_string_write(spec_string_write(w, seq![60u8]), v@), seq![62u8]).peak <= i32::MAX,
    ensures
        ends_in(final(out)@, *final(col), spec_string_write(spec_string_write(spec_string_write(w, seq![60u8]), v@), seq![62u8])),
        *final(col) >= 0,
        spec_string_write(spec_string_write(spec_string_write(w, seq![60u8]), v@), seq![62u8]).err is None,
{
    let ghost w1 = spec_string_write(w, seq![60u8]);
    let ghost w2 = spec_string_write(w1, v@);
    proof {
        lemma_sw_keeps(w, seq![60u8]);
        lemma_sw_keeps(w1, v@);
        lemma_sw_keeps(w2, seq![62u8]);
    }
    let lt = one_byte(60u8);
    string_write_k(out, col, &lt, Ghost(w));
    string_write_k(out, col, v, Ghost(w1));
    let gt = one_byte(62u8);
    string_write_k(out, col, &gt, Ghost(w2));
}

/// Writing a path: its address, if any, in angle brackets.
pub open spec fn spec_path_write(w: WriteState, p: Option<Seq<u8>>) -> WriteState {
    let w1 = spec_string_write(w, seq![60u8]);
    let w2 = match p {
        Some(a) => spec_string_write(w1, a),
        None => w1,
    };
    spec_string_write(w2, seq![62u8])
}

fn mailimf_path_write_driver(out: &mut Vec<u8>, col: &mut i32, p: &mailimf_path, Ghost(w): Ghost<WriteState>)
    requires
        ready(old(out)@, *old(col), w),
        spec_path_write(w, p@).peak <= i32::MAX,
    ensures
        ends_in(final(out)@, *final(col), spec_path_write(w, p@)),
        *final(col) >= 0,
        spec_path_write(w, p@).err is None,
{
    let ghost w1 = spec_string_write(w, seq![60u8]);
    let ghost w2 = match p@ {
        Some(a) => spec_string_write(w1, a),
        None => w1,
    };
    proof {
        lemma_sw_keeps(w, seq![60u8]);
        match p@ {
            Some(a) => lemma_sw_keeps(w1, a),
            None => {},
        }
        lemma_sw_keeps(w2, seq![62u8]);
    }
    let lt = one_byte(60u8);
    string_write_k(out, col, &lt, Ghost(w));
    match &p.pt_addr_spec {
        Some(a) => string_write_k(out, col, a.as_slice(), Ghost(w1)),
        None => {},
    }
    let gt = one_byte(62u8);
    string_write_k(out, col, &gt, Ghost(w2));
}

#[verifier::spinoff_prover]
#[verifier::rlimit(60)]
fn field_body_k(out: &mut Vec<u8>, col: &mut i32, f: &mailimf_field, Ghost(w): Ghost<WriteState>) -> (r: Result<(), MailError>)
    requires
        ready(old(out)@, *old(col), w),
        field_writable(f@),
        field_body(w, f@).peak <= i32::MAX,
    ensures
        ends_in(final(out)@, *final(col), field_body(w, f@)),
        r == outcome(field_body(w, f@)),
        *final(col) >= 0,
{
    match f {
        mailimf_field::ReturnPath(v) => {
            mailimf_path_write_driver(out, col, &v.ret_path, Ghost(w));
            Ok(())
        },
        mailimf_field::ResentDate(v) => {
            mailimf_date_time_write_driver(out, col, &v.dt_date_time, Ghost(w));
            Ok(())
        },
        mailimf_field::OrigDate(v) => {
            mailimf_date_time_write_driver(out, col, &v.dt_date_time, Ghost(w));
            Ok(())
        },
        mailimf_field::ResentFrom(v) => mailbox_list_write_k(out, col, &v.frm_mb_list, Ghost(w)),
        mailimf_field::From(v) => mailbox_list_write_k(out, col, &v.frm_mb_list, Ghost(w)),
        mailimf_field::ResentSender(v) => mailimf_mailbox_write_driver(out, col, &v.snd_mb, Ghost(w)),
        mailimf_field::Sender(v) => mailimf_mailbox_write_driver(out, col, &v.snd_mb, Ghost(w)),
        mailimf_field::ResentTo(v) => address_list_write_k(out, col, &v.to_addr_list, Ghost(w)),
        mailimf_field::ResentCc(v) => address_list_write_k(out, col, &v.cc_addr_list, Ghost(w)),
        mailimf_field::ReplyTo(v) => address_list_write_k(out, col, &v.rt_addr_list, Ghost(w)),
        mailimf_field::To(v) => address_list_write_k(out, col, &v.to_addr_list, Ghost(w)),
        mailimf_field::Cc(v) => address_list_write_k(out, col, &v.cc_addr_list, Ghost(w)),
        mailimf_field::ResentBcc(v) => match &v.bcc_addr_list {
            Some(l) => address_list_write_k(out, col, l, Ghost(w)),
            None => Ok(()),
        },
        mailimf_field::Bcc(v) => match &v.bcc_addr_list {
            Some(l) => address_list_write_k(out, col, l, Ghost(w)),
            None => Ok(()),
        },
        mailimf_field::ResentMsgId(v) => {
            bracketed_write_k(out, col, v.mid_value.as_slice(), Ghost(w));
            Ok(())
        },
        mailimf_field::MessageId(v) => {
            bracketed_write_k(out, col, v.mid_value.as_slice(), Ghost(w));
            Ok(())
        },
        mailimf_field::InReplyTo(v) => {
            mailimf_msg_id_list_write_driver(out, col, &v.mid_list, Ghost(w));
            Ok(())
        },
        mailimf_field::References(v) => {
            mailimf_msg_id_list_write_driver(out, col, &v.mid_list, Ghost(w));
            Ok(())
        },
        mailimf_field::Subject(v) => {
            header_string_write_k(out, col, v.sbj_value.as_slice(), Ghost(w));
            Ok(())
        },
        mailimf_field::Comments(v) => {
            header_string_write_k(out, col, v.cm_value.as_slice(), Ghost(w));
            Ok(())
        },
        mailimf_field::Keywords(v) => {
            keywords_list_write_k(out, col, &v.kw_list, Ghost(w));
            Ok(())
        },
        mailimf_field::OptionalField(_) => Ok(()),
    }
}

fn mailimf_optional_field_write_driver(out: &mut Vec<u8>, col: &mut i32, o: &mailimf_optional_field, Ghost(w): Ghost<WriteState>) -> (r: Result<(), MailError>)
    requires
        ready(old(out)@, *old(col), w),
        spec_optional_field_write(w, o@).peak <= i32::MAX,
    ensures
        ends_in(final(out)@, *final(col), spec_optional_field_write(w, o@)),
        r == outcome(spec_optional_field_write(w, o@)),
        *final(col) >= 0,
{
    if o.fld_name.len() > 996 {
        return Err(MailError::Inval);
    }
    let ghost w0 = spec_string_write(w, o@.name);
    let ghost w1 = spec_string_write(w0, seq![58u8, 32u8]);
    let ghost w2 = spec_header_string_write(w1, o@.value);
    proof {
        lemma_sw_keeps(w, o@.name);
        lemma_sw_keeps(w0, seq![58u8, 32u8]);
        lemma_hsw_keeps(w1, o@.value);
        lemma_sw_keeps(w2, crlf_bytes());
    }
    string_write_k(out, col, o.fld_name.as_slice(), Ghost(w));
    let cs: [u8; 2] = [58u8, 32u8];
    assert(cs@ == seq![58u8, 32u8]);
    string_write_k(out, col, &cs, Ghost(w0));
    header_string_write_k(out, col, o.fld_value.as_slice(), Ghost(w1));
    let nl: [u8; 2] = [13u8, 10u8];
    assert(nl@ == crlf_bytes());
    string_write_k(out, col, &nl, Ghost(w2));
    Ok(())
}

#[verifier::rlimit(40)]
fn field_write_k(out: &mut Vec<u8>, col: &mut i32, f: &mailimf_field, Ghost(w): Ghost<WriteState>) -> (r: Result<(), MailError>)
    requires
        ready(old(out)@, *old(col), w),
        field_writable(f@),
        spec_field_write(w, f@).peak <= i32::MAX,
    ensures
        ends_in(final(out)@, *final(col), spec_field_write(w, f@)),
        r == outcome(spec_field_write(w, f@)),
        *final(col) >= 0,
{
    match f {
        mailimf_field::OptionalField(o) => mailimf_optional_field_write_driver(out, col, o, Ghost(w)),
        _ => {
            let k = field_kind(f);
            let ghost p = header_name(k) + seq![58u8, 32u8];
            let ghost w1 = spec_string_write(w, p);
            let ghost w2 = field_body(w1, f@);
            proof {
                lemma_sw_keeps(w, p);
                lemma_field_body_keeps(w1, f@);
                lemma_sw_keeps(w2, crlf_bytes());
            }
            let mut name = header_name_bytes(k);
            name.push(58u8);
            name.push(32u8);
            assert(name@ =~= p);
            string_write_k(out, col, name.as_slice(), Ghost(w));
            let r = field_body_k(out, col, f, Ghost(w1));
            if r.is_err() {
                return r;
            }
            let nl: [u8; 2] = [13u8, 10u8];
            assert(nl@ == crlf_bytes());
            string_write_k(out, col, &nl, Ghost(w2));
            Ok(())
        },
    }
}

/// mailimf_field_write: writes one header field.
pub fn mailimf_field_write_driver(out: &mut Vec<u8>, col: &mut i32, f: &mailimf_field) -> (r: Result<(), MailError>)
    requires
        *old(col) >= 0,
        field_writable(f@),
        spec_field_write(start_state(old(out)@, *old(col) as int), f@).peak <= i32::MAX,
    ensures
        ends_in(final(out)@, *final(col), spec_field_write(start_state(old(out)@, *old(col) as int), f@)),
        r == outcome(spec_field_write(start_state(old(out)@, *old(col) as int), f@)),
{
    field_write_k(out, col, f, Ghost(start_state(out@, *col as int)))
}

/// The fields of `l` from `i` on; with `envelope`, optional fields are
/// left out.
pub open spec fn fl_from(w: WriteState, l: Seq<FieldView>, i: int, envelope: bool) -> WriteState
    decreases l.len() - i,
{
    if i < 0 || i >= l.len() {
        w
    } else if envelope && l[i] is OptionalField {
        fl_from(w, l, i + 1, envelope)
    } else {
        fl_from(spec_field_write(w, l[i]), l, i + 1, envelope)
    }
}

/// Writing the fields of a header, one after the other.
pub open spec fn spec_fields_write(w: WriteState, l: Seq<FieldView>) -> WriteState {
    fl_from(w, l, 0, false)
}

/// Writing the fields of a header but the optional ones.
pub open spec fn spec_envelope_fields_write(w: WriteState, l: Seq<FieldView>) -> WriteState {
    fl_from(w, l, 0, true)
}

/// Every field of the list can be written.
pub open spec fn fields_writable(l: Seq<FieldView>) -> bool {
    forall|i: int| 0 <= i < l.len() ==> field_writable(#[trigger] l[i])
}

pub proof fn lemma_fl_keeps(w: WriteState, l: Seq<FieldView>, i: int, envelope: bool)
    ensures
        keeps(w, fl_from(w, l, i, envelope)),
    decreases l.len() - i,
{
    if 0 <= i < l.len() {
        if envelope && l[i] is OptionalField {
            lemma_fl_keeps(w, l, i + 1, envelope);
        } else {
            lemma_field_keeps(w, l[i]);
            lemma_fl_keeps(spec_field_write(w, l[i]), l, i + 1, envelope);
        }
    }
}

pub proof fn lemma_fl_err(w: WriteState, l: Seq<FieldView>, i: int, envelope: bool)
    requires
        w.err is Some,
    ensures
        fl_from(w, l, i, envelope) == w,
    decreases l.len() - i,
{
    if 0 <= i < l.len() {
        lemma_fl_err(w, l, i + 1, envelope);
    }
}

fn fields_write_k(out: &mut Vec<u8>, col: &mut i32, fields: &mailimf_fields, envelope: bool, Ghost(w): Ghost<WriteState>) -> (r: Result<(), MailError>)
    requires
        ready(old(out)@, *old(col), w),
        fields_writable(fields@),
        fl_from(w, fields@, 0, envelope).peak <= i32::MAX,
    ensures
        ends_in(final(out)@, *final(col), fl_from(w, fields@, 0, envelope)),
        r == outcome(fl_from(w, fields@, 0, envelope)),
{
    let ghost target = fl_from(w, fields@, 0, envelope);
    let n = fields.fld_list.len();
    let mut i: usize = 0;
    let ghost mut wc = w;
    while i < n
        invariant
            n == fields@.len(),
            n == fields.fld_list@.len(),
            i <= n,
            ready(out@, *col, wc),
            fields_writable(fields@),
            fl_from(wc, fields@, i as int, envelope) == target,
            target == fl_from(w, fields@, 0, envelope),
            target.peak <= i32::MAX,
        decreases n - i,
    {
        let f = &fields.fld_list[i];
        proof {
            assert(fields@[i as int] == f@);
            assert(field_writable(fields@[i as int]));
        }
        let skip = envelope && matches!(f, mailimf_field::OptionalField(_));
        if !skip {
            let ghost w2 = spec_field_write(wc, f@);
            proof {
                lemma_field_keeps(wc, f@);
                lemma_fl_keeps(w2, fields@, i + 1, envelope);
            }
            let r = field_write_k(out, col, f, Ghost(wc));
            proof {
                wc = w2;
            }
            if r.is_err() {
                proof {
                    lemma_fl_err(w2, fields@, i + 1, envelope);
                }
                return r;
            }
        }
        i = i + 1;
    }
    Ok(())
}

/// mailimf_fields_write: writes every field of a header.
pub fn mailimf_fields_write_driver(out: &mut Vec<u8>, col: &mut i32, fields: &mailimf_fields) -> (r: Result<(), MailError>)
    requires
        *old(col) >= 0,
        fields_writable(fields@),
        spec_fields_write(start_state(old(out)@, *old(col) as int), fields@).peak <= i32::MAX,
    ensures
        ends_in(final(out)@, *final(col), spec_fields_write(start_state(old(out)@, *old(col) as int), fields@)),
        r == outcome(spec_fields_write(start_state(old(out)@, *old(col) as int), fields@)),
{
    fields_write_k(out, col, fields, false, Ghost(start_state(out@, *col as int)))
}

/// mailimf_envelope_fields_write: writes the fields of a header but the
/// optional ones.
pub fn mailimf_envelope_fields_write_driver(out: &mut Vec<u8>, col: &mut i32, fields: &mailimf_fields) -> (r: Result<(), MailError>)
    requires
        *old(col) >= 0,
        fields_writable(fields@),
        spec_envelope_fields_write(start_state(old(out)@, *old(col) as int), fields@).peak <= i32::MAX,
    ensures
        ends_in(final(out)@, *final(col), spec_envelope_fields_write(start_state(old(out)@, *old(col) as int), fields@)),
        r == outcome(spec_envelope_fields_write(start_state(old(out)@, *old(col) as int), fields@)),
{
    fields_write_k(out, col, fields, true, Ghost(start_state(out@, *col as int)))
}

// ---------------------------------------------------------------------------
// Line breaks
// ---------------------------------------------------------------------------

/// Every line break in `s` is a CRLF: a CR is always followed by a LF, and a
/// LF always follows a CR.
pub open spec fn crlf_only(s: Seq<u8>) -> bool {
    forall|i: int| #![trigger s[i]] 0 <= i < s.len() ==>
        (s[i] == 13 ==> i + 1 < s.len() && s[i + 1] == 10) && (s[i] == 10 ==> i > 0 && s[i - 1] == 13)
}

pub proof fn lemma_crlf_push(a: Seq<u8>, n0: int, b: Seq<u8>)
    requires
        0 <= n0 <= a.len(),
        crlf_only(a.skip(n0)),
        b == crlf_bytes() || (b.len() == 1 && b[0] != 10 && b[0] != 13),
    ensures
        crlf_only((a + b).skip(n0)),
{
    let x = a.skip(n0);
    assert((a + b).skip(n0) =~= x + b);
    let y = x + b;
    assert forall|i: int| #![trigger y[i]] 0 <= i < y.len() implies
        (y[i] == 13 ==> i + 1 < y.len() && y[i + 1] == 10) && (y[i] == 10 ==> i > 0 && y[i - 1] == 13) by {
        if i < x.len() {
            assert(y[i] == x[i]);
            if x[i] == 13 {
                assert(i + 1 < x.len());
                assert(y[i + 1] == x[i + 1]);
            }
            if x[i] == 10 {
                assert(y[i - 1] == x[i - 1]);
            }
        } else if i == x.len() + 1 {
            assert(b == crlf_bytes());
        } else if i == x.len() && x.len() > 0 {
            assert(x[x.len() - 1] != 13);
        }
    }
}

pub proof fn lemma_sw_from_crlf(w: WriteState, s: Seq<u8>, i: int, count: int, base: int, n0: int)
    requires
        0 <= n0 <= w.out.len(),
        crlf_only(w.out.skip(n0)),
    ensures
        crlf_only(sw_from(w, s, i, count, base).out.skip(n0)),
        w.out.len() <= sw_from(w, s, i, count, base).out.len(),
    decreases s.len() - i, (if count >= 998 { 1int } else { 0int }),
{
    if i < 0 || i >= s.len() {
    } else if count >= 998 {
        lemma_crlf_push(w.out, n0, crlf_bytes());
        lemma_sw_from_crlf(emit(w, crlf_bytes()), s, i, 0, 0, n0);
    } else if s[i] == 10 {
        lemma_crlf_push(w.out, n0, crlf_bytes());
        lemma_sw_from_crlf(emit(w, crlf_bytes()), s, i + 1, 0, 0, n0);
    } else if s[i] == 13 {
        lemma_crlf_push(w.out, n0, crlf_bytes());
        if i + 1 < s.len() && s[i + 1] == 10 {
            lemma_sw_from_crlf(emit(w, crlf_bytes()), s, i + 2, 0, 0, n0);
        } else {
            lemma_sw_from_crlf(emit(w, crlf_bytes()), s, i + 1, 0, 0, n0);
        }
    } else {
        lemma_crlf_push(w.out, n0, seq![s[i]]);
        lemma_sw_from_crlf(emit(w, seq![s[i]]), s, i + 1, count + 1, base, n0);
    }
}

pub proof fn lemma_sw_crlf(w: WriteState, s: Seq<u8>, n0: int)
    requires
        0 <= n0 <= w.out.len(),
        crlf_only(w.out.skip(n0)),
    ensures
        crlf_only(spec_string_write(w, s).out.skip(n0)),
        w.out.len() <= spec_string_write(w, s).out.len(),
{
    if w.err is None {
        lemma_sw_from_crlf(w, s, 0, 0, w.col, n0);
    }
}

pub proof fn lemma_hsw_from_crlf(w: WriteState, s: Seq<u8>, i: int, st: int, wb: int, first: bool, n0: int)
    requires
        0 <= n0 <= w.out.len(),
        crlf_only(w.out.skip(n0)),
    ensures
        crlf_only(hsw_from(w, s, i, st, wb, first).out.skip(n0)),
        w.out.len() <= hsw_from(w, s, i, st, wb, first).out.len(),
    decreases s.len() - i, hsw_rank(s, i, st),
{
    if i < 0 || i >= s.len() {
        if st == 1 {
            let pv = (s.len() - wb) + w.col;
            lemma_hsw_word_crlf(w, s.subrange(wb, s.len() as int), pv, pv >= 72, first, n0);
        }
    } else if st != 1 {
        if is_fold_space(s[i]) {
            lemma_hsw_from_crlf(w, s, i + 1, st, wb, first, n0);
        } else {
            lemma_hsw_from_crlf(w, s, i, 1, i, first, n0);
        }
    } else if is_fold_space(s[i]) {
        let pv = (i - wb) + w.col + 1;
        lemma_hsw_word_crlf(w, s.subrange(wb, i), pv, pv > 72, first, n0);
        lemma_hsw_from_crlf(hsw_word(w, s.subrange(wb, i), pv, pv > 72, first), s, i, 2, wb, false, n0);
    } else if (i - wb) + w.col >= 998 {
        let w1 = probe(w, (i - wb) + w.col);
        lemma_sw_crlf(w1, s.subrange(wb, i), n0);
        let w15 = spec_string_write(w1, s.subrange(wb, i));
        lemma_sw_crlf(w15, fold_bytes(), n0);
        lemma_hsw_from_crlf(spec_string_write(w15, fold_bytes()), s, i + 1, 1, i, first, n0);
    } else {
        lemma_hsw_from_crlf(probe(w, (i - wb) + w.col), s, i + 1, 1, wb, first, n0);
    }
}

pub proof fn lemma_hsw_word_crlf(w: WriteState, word: Seq<u8>, pv: int, fold: bool, first: bool, n0: int)
    requires
        0 <= n0 <= w.out.len(),
        crlf_only(w.out.skip(n0)),
    ensures
        crlf_only(hsw_word(w, word, pv, fold, first).out.skip(n0)),
        w.out.len() <= hsw_word(w, word, pv, fold, first).out.len(),
{
    let w1 = probe(w, pv);
    lemma_sw_crlf(w1, fold_bytes(), n0);
    lemma_sw_crlf(w1, seq![32u8], n0);
    let w2 = if fold {
        spec_string_write(w1, fold_bytes())
    } else if !first {
        spec_string_write(w1, seq![32u8])
    } else {
        w1
    };
    lemma_sw_crlf(w2, word, n0);
}

/// Plain text is written with CRLF as its only line break: whatever line
/// breaks `s` holds, each CR in what is written is followed by a LF, and
/// each LF follows a CR.
pub proof fn law_string_write_crlf(w: WriteState, s: Seq<u8>)
    ensures
        crlf_only(spec_string_write(w, s).out.skip(w.out.len() as int)),
{
    assert(w.out.skip(w.out.len() as int) =~= Seq::<u8>::empty());
    lemma_sw_crlf(w, s, w.out.len() as int);
}

/// A header value is written with CRLF as its only line break.
pub proof fn law_header_string_write_crlf(w: WriteState, s: Seq<u8>)
    ensures
        crlf_only(spec_header_string_write(w, s).out.skip(w.out.len() as int)),
{
    assert(w.out.skip(w.out.len() as int) =~= Seq::<u8>::empty());
    if w.err is None {
        lemma_hsw_from_crlf(w, s, 0, 0, 0, true, w.out.len() as int);
    }
}

/// The number of bytes after the last line break of `s` (all of them when
/// there is none).
pub open spec fn tail_run(s: Seq<u8>) -> nat
    decreases s.len(),
{
    if s.len() == 0 {
        0
    } else if s.last() == 10 || s.last() == 13 {
        0
    } else {
        tail_run(s.drop_last()) + 1
    }
}

/// No line of `s` holds more than `n` bytes.
pub open spec fn lines_within(s: Seq<u8>, n: nat) -> bool {
    forall|j: int| 0 <= j <= s.len() ==> #[trigger] tail_run(s.take(j)) <= n
}

pub proof fn lemma_runs_push(x: Seq<u8>, b: Seq<u8>)
    requires
        lines_within(x, 998),
        b == crlf_bytes() || (b.len() == 1 && b[0] != 10 && b[0] != 13 && tail_run(x) < 998),
    ensures
        lines_within(x + b, 998),
        tail_run(x + b) == (if b == crlf_bytes() { 0 } else { tail_run(x) + 1 }),
{
    let y = x + b;
    assert forall|j: int| 0 <= j <= y.len() implies #[trigger] tail_run(y.take(j)) <= 998 by {
        if j <= x.len() {
            assert(y.take(j) =~= x.take(j));
        } else if b == crlf_bytes() {
            if j == x.len() + 1 {
                assert(y.take(j).last() == 13);
            } else {
                assert(y.take(j) =~= y);
                assert(y.last() == 10);
            }
        } else {
            assert(y.take(j) =~= y);
            assert(y.drop_last() =~= x);
            assert(x.take(x.len() as int) =~= x);
        }
    }
    if b == crlf_bytes() {
        assert(y.last() == 10);
    } else {
        assert(y.drop_last() =~= x);
    }
}

pub proof fn lemma_sw_from_runs(w: WriteState, s: Seq<u8>, i: int, count: int, base: int, n0: int)
    requires
        0 <= n0 <= w.out.len(),
        0 <= count <= 998,
        lines_within(w.out.skip(n0), 998),
        tail_run(w.out.skip(n0)) == count,
    ensures
        lines_within(sw_from(w, s, i, count, base).out.skip(n0), 998),
    decreases s.len() - i, (if count >= 998 { 1int } else { 0int }),
{
    let x = w.out.skip(n0);
    if i < 0 || i >= s.len() {
    } else if count >= 998 || s[i] == 10 || s[i] == 13 {
        lemma_runs_push(x, crlf_bytes());
        assert((w.out + crlf_bytes()).skip(n0) =~= x + crlf_bytes());
        let w2 = emit(w, crlf_bytes());
        if count >= 998 {
            lemma_sw_from_runs(w2, s, i, 0, 0, n0);
        } else if s[i] == 10 {
            lemma_sw_from_runs(w2, s, i + 1, 0, 0, n0);
        } else if i + 1 < s.len() && s[i + 1] == 10 {
            lemma_sw_from_runs(w2, s, i + 2, 0, 0, n0);
        } else {
            lemma_sw_from_runs(w2, s, i + 1, 0, 0, n0);
        }
    } else {
        lemma_runs_push(x, seq![s[i]]);
        assert((w.out + seq![s[i]]).skip(n0) =~= x + seq![s[i]]);
        lemma_sw_from_runs(emit(w, seq![s[i]]), s, i + 1, count + 1, base, n0);
    }
}

/// Plain text is written in lines of at most 998 bytes: what one write adds
/// never holds more than 998 bytes in a row without a line break.
pub proof fn law_string_write_line_length(w: WriteState, s: Seq<u8>)
    ensures
        lines_within(spec_string_write(w, s).out.skip(w.out.len() as int), 998),
{
    let x = w.out.skip(w.out.len() as int);
    assert(x =~= Seq::<u8>::empty());
    assert forall|j: int| 0 <= j <= x.len() implies #[trigger] tail_run(x.take(j)) <= 998 by {
        assert(x.take(j) =~= Seq::<u8>::empty());
    }
    if w.err is None {
        lemma_sw_from_runs(w, s, 0, 0, w.col, w.out.len() as int);
    }
}

// ---------------------------------------------------------------------------
// What folding keeps
// ---------------------------------------------------------------------------

/// The bytes of `s` that are not white space (space, tab, CR, LF).
pub open spec fn strip_ws(s: Seq<u8>) -> Seq<u8>
    decreases s.len(),
{
    if s.len() == 0 {
        Seq::empty()
    } else {
        strip_ws(s.drop_last()) + (if is_fold_space(s.last()) { Seq::<u8>::empty() } else { seq![s.last()] })
    }
}

pub proof fn lemma_strip_concat(a: Seq<u8>, b: Seq<u8>)
    ensures
        strip_ws(a + b) == strip_ws(a) + strip_ws(b),
    decreases b.len(),
{
    if b.len() == 0 {
        assert(a + b =~= a);
        assert(strip_ws(a) + strip_ws(b) =~= strip_ws(a));
    } else {
        lemma_strip_concat(a, b.drop_last());
        assert((a + b).drop_last() =~= a + b.drop_last());
        assert((a + b).last() == b.last());
        assert(strip_ws(a + b) =~= strip_ws(a) + strip_ws(b));
    }
}

pub proof fn lemma_strip_one(c: u8)
    ensures
        strip_ws(seq![c]) == (if is_fold_space(c) { Seq::<u8>::empty() } else { seq![c] }),
{
    assert(seq![c].drop_last() =~= Seq::<u8>::empty());
    assert(strip_ws(Seq::<u8>::empty()) == Seq::<u8>::empty());
    assert(seq![c].last() == c);
    let piece = if is_fold_space(c) { Seq::<u8>::empty() } else { seq![c] };
    assert(strip_ws(seq![c]) == strip_ws(seq![c].drop_last()) + piece);
    assert(Seq::<u8>::empty() + piece =~= piece);
}

/// The text from `i` on, split at its first byte.
pub proof fn lemma_strip_step(s: Seq<u8>, i: int)
    requires
        0 <= i < s.len(),
    ensures
        strip_ws(s.subrange(i, s.len() as int)) == strip_ws(seq![s[i]]) + strip_ws(s.subrange(i + 1, s.len() as int)),
{
    assert(s.subrange(i, s.len() as int) =~= seq![s[i]] + s.subrange(i + 1, s.len() as int));
    lemma_strip_concat(seq![s[i]], s.subrange(i + 1, s.len() as int));
}

pub proof fn lemma_strip_emit(out: Seq<u8>, n0: int, b: Seq<u8>)
    requires
        0 <= n0 <= out.len(),
    ensures
        strip_ws((out + b).skip(n0)) == strip_ws(out.skip(n0)) + strip_ws(b),
{
    assert((out + b).skip(n0) =~= out.skip(n0) + b);
    lemma_strip_concat(out.skip(n0), b);
}

pub proof fn lemma_sw_from_strip(w: WriteState, s: Seq<u8>, i: int, count: int, base: int, n0: int)
    requires
        0 <= n0 <= w.out.len(),
        0 <= i <= s.len(),
    ensures
        strip_ws(sw_from(w, s, i, count, base).out.skip(n0)) == strip_ws(w.out.skip(n0)) + strip_ws(s.subrange(i, s.len() as int)),
        w.out.len() <= sw_from(w, s, i, count, base).out.len(),
    decreases s.len() - i, (if count >= 998 { 1int } else { 0int }),
{
    let x = w.out.skip(n0);
    if i >= s.len() {
        assert(s.subrange(i, s.len() as int) =~= Seq::<u8>::empty());
        assert(strip_ws(x) + strip_ws(Seq::<u8>::empty()) =~= strip_ws(x));
    } else {
        lemma_strip_step(s, i);
        lemma_strip_one(s[i]);
        lemma_strip_one(13u8);
        lemma_strip_one(10u8);
        lemma_strip_emit(w.out, n0, crlf_bytes());
        lemma_strip_concat(seq![13u8], seq![10u8]);
        assert(crlf_bytes() =~= seq![13u8] + seq![10u8]);
        assert(strip_ws(crlf_bytes()) =~= Seq::<u8>::empty());
        if count >= 998 {
            lemma_sw_from_strip(emit(w, crlf_bytes()), s, i, 0, 0, n0);
            assert(strip_ws(x) + Seq::<u8>::empty() =~= strip_ws(x));
        } else if s[i] == 10 {
            lemma_sw_from_strip(emit(w, crlf_bytes()), s, i + 1, 0, 0, n0);
            assert(strip_ws(x) + Seq::<u8>::empty() =~= strip_ws(x));
            assert(Seq::<u8>::empty() + strip_ws(s.subrange(i + 1, s.len() as int)) =~= strip_ws(s.subrange(i + 1, s.len() as int)));
        } else if s[i] == 13 {
            assert(strip_ws(x) + Seq::<u8>::empty() =~= strip_ws(x));
            assert(Seq::<u8>::empty() + strip_ws(s.subrange(i + 1, s.len() as int)) =~= strip_ws(s.subrange(i + 1, s.len() as int)));
            if i + 1 < s.len() && s[i + 1] == 10 {
                lemma_strip_step(s, i + 1);
                lemma_sw_from_strip(emit(w, crlf_bytes()), s, i + 2, 0, 0, n0);
                assert(Seq::<u8>::empty() + strip_ws(s.subrange(i + 2, s.len() as int)) =~= strip_ws(s.subrange(i + 2, s.len() as int)));
            } else {
                lemma_sw_from_strip(emit(w, crlf_bytes()), s, i + 1, 0, 0, n0);
            }
        } else {
            lemma_strip_emit(w.out, n0, seq![s[i]]);
            lemma_sw_from_strip(emit(w, seq![s[i]]), s, i + 1, count + 1, base, n0);
            assert(strip_ws(x) + strip_ws(seq![s[i]]) + strip_ws(s.subrange(i + 1, s.len() as int))
                =~= strip_ws(x) + (strip_ws(seq![s[i]]) + strip_ws(s.subrange(i + 1, s.len() as int))));
        }
    }
}

pub proof fn lemma_sw_strip(w: WriteState, b: Seq<u8>, n0: int)
    requires
        w.err is None,
        0 <= n0 <= w.out.len(),
    ensures
        strip_ws(spec_string_write(w, b).out.skip(n0)) == strip_ws(w.out.skip(n0)) + strip_ws(b),
        w.out.len() <= spec_string_write(w, b).out.len(),
{
    lemma_sw_from_strip(w, b, 0, 0, w.col, n0);
    assert(b.subrange(0, b.len() as int) =~= b);
}

pub proof fn lemma_strip_fold()
    ensures
        strip_ws(fold_bytes()) == Seq::<u8>::empty(),
        strip_ws(seq![32u8]) == Seq::<u8>::empty(),
{
    lemma_strip_one(13u8);
    lemma_strip_one(10u8);
    lemma_strip_one(32u8);
    assert(fold_bytes() =~= seq![13u8] + seq![10u8] + seq![32u8]);
    lemma_strip_concat(seq![13u8], seq![10u8]);
    lemma_strip_concat(seq![13u8] + seq![10u8], seq![32u8]);
    assert(strip_ws(fold_bytes()) =~= Seq::<u8>::empty());
}

pub proof fn lemma_hsw_word_strip(w: WriteState, word: Seq<u8>, pv: int, fold: bool, first: bool, n0: int)
    requires
        w.err is None,
        0 <= n0 <= w.out.len(),
    ensures
        strip_ws(hsw_word(w, word, pv, fold, first).out.skip(n0)) == strip_ws(w.out.skip(n0)) + strip_ws(word),
        w.out.len() <= hsw_word(w, word, pv, fold, first).out.len(),
{
    let w1 = probe(w, pv);
    lemma_strip_fold();
    lemma_sw_strip(w1, fold_bytes(), n0);
    lemma_sw_strip(w1, seq![32u8], n0);
    lemma_sw_keeps(w1, fold_bytes());
    lemma_sw_keeps(w1, seq![32u8]);
    let w2 = if fold {
        spec_string_write(w1, fold_bytes())
    } else if !first {
        spec_string_write(w1, seq![32u8])
    } else {
        w1
    };
    assert(strip_ws(w2.out.skip(n0)) =~= strip_ws(w.out.skip(n0)));
    lemma_sw_strip(w2, word, n0);
}

pub proof fn lemma_hsw_from_strip(w: WriteState, s: Seq<u8>, i: int, st: int, wb: int, first: bool, n0: int)
    requires
        w.err is None,
        0 <= n0 <= w.out.len(),
        0 <= i <= s.len(),
        st == 1 ==> 0 <= wb <= i,
    ensures
        strip_ws(hsw_from(w, s, i, st, wb, first).out.skip(n0))
            == strip_ws(w.out.skip(n0)) + strip_ws(s.subrange(if st == 1 { wb } else { i }, s.len() as int)),
    decreases s.len() - i, hsw_rank(s, i, st),
{
    let x = w.out.skip(n0);
    if i >= s.len() {
        if st == 1 {
            let pv = (s.len() - wb) + w.col;
            lemma_hsw_word_strip(w, s.subrange(wb, s.len() as int), pv, pv >= 72, first, n0);
        } else {
            assert(s.subrange(i, s.len() as int) =~= Seq::<u8>::empty());
            assert(strip_ws(x) + strip_ws(Seq::<u8>::empty()) =~= strip_ws(x));
        }
    } else if st != 1 {
        if is_fold_space(s[i]) {
            lemma_hsw_from_strip(w, s, i + 1, st, wb, first, n0);
            lemma_strip_step(s, i);
            lemma_strip_one(s[i]);
            assert(Seq::<u8>::empty() + strip_ws(s.subrange(i + 1, s.len() as int)) =~= strip_ws(s.subrange(i + 1, s.len() as int)));
        } else {
            lemma_hsw_from_strip(w, s, i, 1, i, first, n0);
        }
    } else if is_fold_space(s[i]) {
        let pv = (i - wb) + w.col + 1;
        let w2 = hsw_word(w, s.subrange(wb, i), pv, pv > 72, first);
        lemma_hsw_word_strip(w, s.subrange(wb, i), pv, pv > 72, first, n0);
        lemma_hsw_keeps_word(w, s.subrange(wb, i), pv, pv > 72, first);
        lemma_hsw_from_strip(w2, s, i, 2, wb, false, n0);
        assert(s.subrange(wb, s.len() as int) =~= s.subrange(wb, i) + s.subrange(i, s.len() as int));
        lemma_strip_concat(s.subrange(wb, i), s.subrange(i, s.len() as int));
        assert(strip_ws(x) + strip_ws(s.subrange(wb, i)) + strip_ws(s.subrange(i, s.len() as int))
            =~= strip_ws(x) + (strip_ws(s.subrange(wb, i)) + strip_ws(s.subrange(i, s.len() as int))));
    } else if (i - wb) + w.col >= 998 {
        let w1 = probe(w, (i - wb) + w.col);
        lemma_sw_strip(w1, s.subrange(wb, i), n0);
        lemma_sw_keeps(w1, s.subrange(wb, i));
        let w15 = spec_string_write(w1, s.subrange(wb, i));
        lemma_sw_strip(w15, fold_bytes(), n0);
        lemma_sw_keeps(w15, fold_bytes());
        lemma_strip_fold();
        let w2 = spec_string_write(w15, fold_bytes());
        lemma_hsw_from_strip(w2, s, i + 1, 1, i, first, n0);
        assert(s.subrange(wb, s.len() as int) =~= s.subrange(wb, i) + s.subrange(i, s.len() as int));
        lemma_strip_concat(s.subrange(wb, i), s.subrange(i, s.len() as int));
        assert(strip_ws(w2.out.skip(n0)) =~= strip_ws(x) + strip_ws(s.subrange(wb, i)));
        assert(strip_ws(x) + strip_ws(s.subrange(wb, i)) + strip_ws(s.subrange(i, s.len() as int))
            =~= strip_ws(x) + (strip_ws(s.subrange(wb, i)) + strip_ws(s.subrange(i, s.len() as int))));
    } else {
        lemma_hsw_from_strip(probe(w, (i - wb) + w.col), s, i + 1, 1, wb, first, n0);
    }
}

pub proof fn lemma_hsw_keeps_word(w: WriteState, word: Seq<u8>, pv: int, fold: bool, first: bool)
    requires
        w.err is None,
    ensures
        hsw_word(w, word, pv, fold, first).err is None,
{
    let w1 = probe(w, pv);
    lemma_sw_keeps(w1, fold_bytes());
    lemma_sw_keeps(w1, seq![32u8]);
    let w2 = if fold {
        spec_string_write(w1, fold_bytes())
    } else if !first {
        spec_string_write(w1, seq![32u8])
    } else {
        w1
    };
    lemma_sw_keeps(w2, word);
}

/// Writing a header value changes nothing but its white space: leaving out
/// spaces, tabs, CRs and LFs, what is written is the value.
pub proof fn law_header_string_write_keeps_text(w: WriteState, s: Seq<u8>)
    requires
        w.err is None,
    ensures
        strip_ws(spec_header_string_write(w, s).out.skip(w.out.len() as int)) == strip_ws(s),
{
    let n0 = w.out.len() as int;
    assert(w.out.skip(n0) =~= Seq::<u8>::empty());
    lemma_hsw_from_strip(w, s, 0, 0, 0, true, n0);
    assert(s.subrange(0, s.len() as int) =~= s);
    assert(strip_ws(Seq::<u8>::empty()) + strip_ws(s) =~= strip_ws(s));
}


proof fn lemma_sw_crlf_ends_line(w: WriteState)
    requires
        w.err is None,
    ensures
        spec_string_write(w, crlf_bytes()).col == 0,
        spec_string_write(w, crlf_bytes()).err is None,
        spec_string_write(w, crlf_bytes()).out == w.out + crlf_bytes(),
{
    let w1 = emit(w, crlf_bytes());
    assert(sw_from(w1, crlf_bytes(), 2, 0, 0) == set_col(w1, 0));
}

proof fn lemma_optional_ends_line(w: WriteState, o: OptionalFieldView)
    requires
        w.err is None,
    ensures
        spec_optional_field_write(w, o).err is None ==> {
            &&& spec_optional_field_write(w, o).col == 0
            &&& spec_optional_field_write(w, o).out.len() >= w.out.len() + 2
            &&& spec_optional_field_write(w, o).out.subrange(spec_optional_field_write(w, o).out.len() - 2, spec_optional_field_write(w, o).out.len() as int) == crlf_bytes()
        },
{
    if o.name.len() + 2 <= 998 {
        let w0 = spec_string_write(w, o.name);
        let w1 = spec_string_write(w0, seq![58u8, 32u8]);
        let w2 = spec_header_string_write(w1, o.value);
        lemma_sw_keeps(w, o.name);
        lemma_sw_keeps(w0, seq![58u8, 32u8]);
        lemma_hsw_keeps(w1, o.value);
        if w2.err is None {
            lemma_sw_crlf_ends_line(w2);
            let r = spec_string_write(w2, crlf_bytes());
            assert(r.out.subrange(r.out.len() - 2, r.out.len() as int) =~= crlf_bytes());
        }
    }
}

#[verifier::spinoff_prover]
#[verifier::rlimit(40)]
proof fn lemma_named_ends_line(w: WriteState, f: FieldView)
    requires
        w.err is None,
        !(f is OptionalField),
    ensures
        spec_field_write(w, f).err is None ==> {
            &&& spec_field_write(w, f).col == 0
            &&& spec_field_write(w, f).out.len() >= w.out.len() + 2
            &&& spec_field_write(w, f).out.subrange(spec_field_write(w, f).out.len() - 2, spec_field_write(w, f).out.len() as int) == crlf_bytes()
        },
{
    let p = header_name(field_name(f)) + seq![58u8, 32u8];
    let w1 = spec_string_write(w, p);
    lemma_sw_keeps(w, p);
    let w2 = field_body(w1, f);
    lemma_field_body_keeps(w1, f);
    assert(spec_field_write(w, f) == spec_string_write(w2, crlf_bytes()));
    if w2.err is None {
        lemma_sw_crlf_ends_line(w2);
        let r = spec_string_write(w2, crlf_bytes());
        assert(r.out.subrange(r.out.len() - 2, r.out.len() as int) =~= crlf_bytes());
    }
}

/// A field that is written without error ends its line: what is written
/// ends with CRLF and the column is back at 0.
pub proof fn law_field_write_ends_line(w: WriteState, f: FieldView)
    requires
        w.err is None,
    ensures
        spec_field_write(w, f).err is None ==> {
            &&& spec_field_write(w, f).col == 0
            &&& spec_field_write(w, f).out.len() >= w.out.len() + 2
            &&& spec_field_write(w, f).out.subrange(spec_field_write(w, f).out.len() - 2, spec_field_write(w, f).out.len() as int) == crlf_bytes()
        },
{
    match f {
        FieldView::OptionalField(o) => lemma_optional_ends_line(w, o),
        _ => lemma_named_ends_line(w, f),
    }
}

} // verus!
