//! Conversion of text in a named character set to UTF-8, done by the
//! `charset` crate.

use vstd::prelude::*;

verus! {

#[verifier::external_type_specification]
#[verifier::external_body]
pub struct ExCharset(charset::Charset);

/// Whether `charset::Charset::for_label` recognizes a label.
pub uninterp spec fn charset_label_known(label: Seq<u8>) -> bool;

/// The UTF-8 bytes that `charset::Charset::decode` gives for `data`, with the
/// character set that the label names.
pub uninterp spec fn charset_decoded(label: Seq<u8>, data: Seq<u8>) -> Seq<u8>;

/// A character set together with the label that named it.
pub struct LabeledCharset {
    label: Vec<u8>,
    cs: charset::Charset,
}

impl View for LabeledCharset {
    type V = Seq<u8>;

    closed spec fn view(&self) -> Seq<u8> {
        self.label@
    }
}

/// Calls `charset::Charset::for_label`. Claimed: the result is present exactly
/// when the crate recognizes the label (a function of the label alone, named
/// `charset_label_known`), and it keeps the label it came from.
#[verifier::external_body]
fn charset_for_label(label: &[u8]) -> (r: Option<LabeledCharset>)
    ensures
        r.is_some() == charset_label_known(label@),
        r matches Some(c) ==> c@ == label@,
{
    match charset::Charset::for_label(label) {
        Some(cs) => Some(LabeledCharset { label: label.to_vec(), cs }),
        None => None,
    }
}

/// Calls `charset::Charset::decode` and takes the UTF-8 bytes of the text.
/// Claimed: the bytes depend on the label and the data alone (named
/// `charset_decoded`); what they are is not stated.
#[verifier::external_body]
fn charset_decode(c: &LabeledCharset, data: &[u8]) -> (r: Vec<u8>)
    ensures
        r@ == charset_decoded(c@, data@),
{
    let (text, _, _) = c.cs.decode(data);
    text.as_bytes().to_vec()
}

/// The errors of a character set conversion.
#[derive(PartialEq, Eq, Structural, Clone, Copy, Debug)]
pub enum CharconvError {
    UnknownCharset,
    Memory,
    Conv,
}

/// The bytes of `s` before its first NUL byte.
pub open spec fn spec_c_str(s: Seq<u8>) -> Seq<u8> {
    s.take(spec_nul_pos(s, 0))
}

/// The position of the first NUL byte at or after `i`, or the length.
pub open spec fn spec_nul_pos(s: Seq<u8>, i: int) -> int
    decreases s.len() - i,
{
    if 0 <= i < s.len() && s[i] != 0 {
        spec_nul_pos(s, i + 1)
    } else {
        i
    }
}

proof fn lemma_nul_pos(s: Seq<u8>, i: int)
    requires
        0 <= i <= s.len(),
    ensures
        i <= spec_nul_pos(s, i) <= s.len(),
    decreases s.len() - i,
{
    if 0 <= i < s.len() && s[i] != 0 {
        lemma_nul_pos(s, i + 1);
    }
}

pub open spec fn spec_charconv(fromcode: Seq<u8>, s: Seq<u8>) -> Result<Seq<u8>, CharconvError> {
    if charset_label_known(fromcode) {
        Ok(charset_decoded(fromcode, spec_c_str(s)))
    } else {
        Err(CharconvError::UnknownCharset)
    }
}

/// Converts the text of `s` (up to its first NUL byte) from the character set
/// named `fromcode` to UTF-8. The target is always UTF-8, whatever `tocode` says.
pub fn charconv(tocode: &[u8], fromcode: &[u8], s: &[u8]) -> (r: Result<Vec<u8>, CharconvError>)
    ensures
        r matches Ok(v) ==> spec_charconv(fromcode@, s@) == Ok::<Seq<u8>, CharconvError>(v@),
        r matches Err(e) ==> spec_charconv(fromcode@, s@) == Err::<Seq<u8>, CharconvError>(e),
{
    match charset_for_label(fromcode) {
        Some(cs) => {
            let mut n: usize = 0;
            proof {
                lemma_nul_pos(s@, 0);
            }
            while n < s.len() && s[n] != 0
                invariant
                    0 <= n <= s@.len(),
                    spec_nul_pos(s@, 0) == spec_nul_pos(s@, n as int),
                decreases s@.len() - n,
            {
                n = n + 1;
            }
            let data = vstd::slice::slice_subrange(s, 0, n);
            Ok(charset_decode(&cs, data))
        },
        None => Err(CharconvError::UnknownCharset),
    }
}

} // verus!
