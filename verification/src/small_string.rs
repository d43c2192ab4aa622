use vstd::prelude::*;

use vstd::string::StringSliceAdditionalSpecFns;
use vstd::utf8::{
    encode_utf8_valid_utf8, is_leading_byte_width_1, partial_valid_utf8,
    partial_valid_utf8_extend_ascii_block, valid_utf8,
};

verus! {

/// A string of at most 128 bytes held inline: `data[..length]` are its bytes.
pub struct SmallString {
    pub data: [u8; 128],
    pub length: usize,
}

impl SmallString {
    /// The bytes of the string.
    pub open spec fn bytes(self) -> Seq<u8> {
        self.data@.subrange(0, self.length as int)
    }

    /// The string holding the UTF-8 bytes of `s`, followed by zero bytes.
    pub fn new(s: &str) -> (r: SmallString)
        requires
            s.spec_bytes().len() <= 128,
        ensures
            r.length == s.spec_bytes().len(),
            r.bytes() == s.spec_bytes(),
            forall|i: int| r.length <= i < 128 ==> #[trigger] r.data@[i] == 0,
            valid_utf8(r.bytes()),
    {
        let bytes = s.as_bytes();
        let n = bytes.len();
        let mut data = [0u8; 128];
        let mut i: usize = 0;
        while i < n
            invariant
                i <= n,
                n == bytes@.len(),
                n <= 128,
                forall|j: int| 0 <= j < i ==> #[trigger] data@[j] == bytes@[j],
                forall|j: int| i <= j < 128 ==> #[trigger] data@[j] == 0,
            decreases n - i,
        {
            data[i] = bytes[i];
            i = i + 1;
        }
        let r = SmallString { data, length: n };
        assert(r.bytes() =~= s.spec_bytes());
        proof {
            encode_utf8_valid_utf8(s@);
        }
        r
    }
}

/// A sequence of ASCII bytes is valid UTF-8.
pub proof fn lemma_ascii_valid_utf8(s: Seq<u8>)
    requires
        forall|i: int| 0 <= i < s.len() ==> #[trigger] s[i] < 128,
    ensures
        valid_utf8(s),
{
    assert(s.subrange(0, 0) =~= Seq::<u8>::empty());
    assert(partial_valid_utf8(s, 0));
    assert forall|i: int| 0 <= 0 <= i < s.len() <= s.len() implies #[trigger] is_leading_byte_width_1(s[i]) by {
    }
    partial_valid_utf8_extend_ascii_block(s, 0, s.len() as int);
    assert(s.subrange(0, s.len() as int) =~= s);
}

} // verus!
