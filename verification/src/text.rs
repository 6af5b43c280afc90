//! Small helpers on strings and ASCII bytes.

use vstd::prelude::*;
use vstd::slice::slice_index_get;
use vstd::string::StringSliceAdditionalSpecFns;
use vstd::utf8::encode_utf8_decode_utf8;

verus! {

/// The characters that a run of ASCII bytes spells.
pub open spec fn ascii_text(bytes: Seq<u8>) -> Seq<char> {
    Seq::new(bytes.len(), |i: int| bytes[i] as char)
}

/// `String::push` appends one character to the end of the string.
pub assume_specification[ std::string::String::push ](s: &mut std::string::String, ch: char)
    ensures
        final(s)@ == old(s)@.push(ch),
;

/// Whether two string slices hold the same characters.
pub fn str_eq(a: &str, b: &str) -> (r: bool)
    ensures
        r == (a@ == b@),
{
    let x = a.as_bytes();
    let y = b.as_bytes();
    proof {
        encode_utf8_decode_utf8(a@);
        encode_utf8_decode_utf8(b@);
    }
    if x.len() != y.len() {
        return false;
    }
    let mut i: usize = 0;
    while i < x.len()
        invariant
            i <= x.len(),
            x.len() == y.len(),
            x@ == a.spec_bytes(),
            y@ == b.spec_bytes(),
            forall|j: int| 0 <= j < i ==> x@[j] == y@[j],
        decreases x.len() - i,
    {
        if *slice_index_get(x, i) != *slice_index_get(y, i) {
            return false;
        }
        i += 1;
    }
    assert(x@ =~= y@);
    true
}

/// The text spelled by the ASCII bytes `bytes[from..to]`.
pub fn ascii_string(bytes: &[u8], from: usize, to: usize) -> (s: String)
    requires
        from <= to <= bytes@.len(),
    ensures
        s@ == ascii_text(bytes@.subrange(from as int, to as int)),
{
    let mut s = String::new();
    let mut i: usize = from;
    while i < to
        invariant
            from <= i <= to <= bytes@.len(),
            s@ == ascii_text(bytes@.subrange(from as int, i as int)),
        decreases to - i,
    {
        let b: u8 = *slice_index_get(bytes, i);
        s.push(b as char);
        i += 1;
        assert(s@ =~= ascii_text(bytes@.subrange(from as int, i as int)));
    }
    s
}

} // verus!
