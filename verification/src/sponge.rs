use vstd::prelude::*;

use crate::bytes::{
    bytes_to_lanes, lanes_to_bytes, lemma_lanes_bytes_round_trip, lemma_set_byte, with_lane_byte,
};
use crate::keccak::{iter, iters, round_scratch};
use crate::keccak_spec::{keccak_f, keccak_round};
use crate::lanes::lanes_at;
use crate::decimal::{decimal, lemma_decimal_len_u64, lemma_decimal_round_trip, write_decimal};
use crate::selector::string_from_utf8;
use crate::small_string::{lemma_ascii_valid_utf8, SmallString};
use vstd::utf8::{decode_utf8, valid_utf8, valid_utf8_concat};

verus! {

/// The text that the miner hashes: the function name, the nonce in decimal,
/// then the parameter list.
pub open spec fn message(name: Seq<u8>, nonce: u64, params: Seq<u8>) -> Seq<u8> {
    name + decimal(nonce as nat) + params
}

/// The 200 state bytes after the message has been written: the message,
/// zero bytes after it, and the final bit of the padding (`0x80`) at byte 135,
/// the last byte of the 136-byte rate block.
pub open spec fn filled_block(msg: Seq<u8>) -> Seq<u8> {
    Seq::new(
        200,
        |i: int|
            if i == 135 {
                0x80u8
            } else if i < msg.len() {
                msg[i]
            } else {
                0u8
            },
    )
}

/// The message, the domain byte `0x01` right after it, zeros, and `0x80` at
/// byte 135 (a message that reaches byte 135 overwrites it). For a message of
/// at most 134 bytes this is the block that Keccak-256 absorbs; a message of
/// 135 bytes or more would need more than one block and is not padded as
/// Keccak-256 pads it.
pub open spec fn padded_block(msg: Seq<u8>) -> Seq<u8> {
    filled_block(msg).update(msg.len() as int, 0x01u8)
}

/// The first `msg.len()` bytes of `filled_block(msg)`: the message itself,
/// except that byte 135, if the message reaches it, holds `0x80`.
pub open spec fn written_text(msg: Seq<u8>) -> Seq<u8> {
    filled_block(msg).subrange(0, msg.len() as int)
}

/// A message of at most 135 bytes made of UTF-8 name and parameters is
/// written unchanged, and it is valid UTF-8.
pub proof fn lemma_written_text(name: Seq<u8>, nonce: u64, params: Seq<u8>)
    requires
        message(name, nonce, params).len() <= 135,
        valid_utf8(name),
        valid_utf8(params),
    ensures
        written_text(message(name, nonce, params)) == message(name, nonce, params),
        valid_utf8(message(name, nonce, params)),
{
    let msg = message(name, nonce, params);
    assert(written_text(msg) =~= msg);
    let digits = decimal(nonce as nat);
    lemma_decimal_round_trip(nonce as nat);
    lemma_ascii_valid_utf8(digits);
    valid_utf8_concat(name, digits);
    valid_utf8_concat(name + digits, params);
}

/// The 136-byte rate block that Keccak-256 absorbs for a message of at most
/// 135 bytes: the message, then the pad10*1 padding with the Keccak domain
/// bit, i.e. `0x01` set in the byte right after the message and `0x80` set
/// in the last byte of the block (both in the same byte, `0x81`, when the
/// message fills all but one byte).
pub open spec fn keccak_rate_block(msg: Seq<u8>) -> Seq<u8> {
    Seq::new(
        136,
        |i: int|
            (if i < msg.len() {
                msg[i]
            } else {
                0u8
            }) | (if i == msg.len() {
                0x01u8
            } else {
                0u8
            }) | (if i == 135 {
                0x80u8
            } else {
                0u8
            }),
    )
}

/// For every message of at most 134 bytes, the block that `fill` writes is
/// the Keccak-256 padding of the message in the rate, and the 64 capacity
/// bytes are zero: whatever the message, its bytes come first, `0x01`
/// follows, byte 135 holds `0x80`, and every other byte is zero.
pub proof fn lemma_padded_block_is_keccak_padding(msg: Seq<u8>)
    requires
        msg.len() <= 134,
    ensures
        padded_block(msg).len() == 200,
        padded_block(msg).subrange(0, 136) == keccak_rate_block(msg),
        padded_block(msg)[msg.len() as int] == 0x01,
        padded_block(msg)[135] == 0x80,
        forall|i: int| 0 <= i < msg.len() ==> #[trigger] padded_block(msg)[i] == msg[i],
        forall|i: int|
            msg.len() < i < 200 && i != 135 ==> #[trigger] padded_block(msg)[i] == 0,
{
    let p = padded_block(msg);
    let k = keccak_rate_block(msg);
    assert forall|i: int| 0 <= i < 136 implies #[trigger] p[i] == k[i] by {
        if i < msg.len() {
            let b = msg[i];
            assert(b | 0u8 | 0u8 == b) by (bit_vector);
        } else if i == msg.len() {
            assert(0u8 | 0x01u8 | 0u8 == 0x01u8) by (bit_vector);
        } else if i == 135 {
            assert(0u8 | 0u8 | 0x80u8 == 0x80u8) by (bit_vector);
        } else {
            assert(0u8 | 0u8 | 0u8 == 0u8) by (bit_vector);
        }
    }
    assert(p.subrange(0, 136) =~= k);
}

/// The Keccak state as 25 lanes of 64 bits, also seen as 200 bytes (see
/// `chars_view`).
pub struct Sponge {
    pub uint64s: [u64; 25],
}

impl Sponge {
    /// The selector that `compute_selectors` returns for this state: the low
    /// 32 bits of the first lane after Keccak-f[1600].
    pub open spec fn selector(self) -> u32 {
        keccak_f(self.uint64s@)[0] as u32
    }

    /// The 200 bytes of the state, lane by lane, each lane little-endian.
    pub open spec fn chars_view(self) -> Seq<u8> {
        lanes_to_bytes(self.uint64s@)
    }

    /// Byte `i` of the state.
    pub fn get_char(&self, i: usize) -> (r: u8)
        requires
            i < 200,
        ensures
            r == self.chars_view()[i as int],
    {
        let v = self.uint64s[i / 8];
        let s = ((i % 8) * 8) as u64;
        ((v >> s) & 0xff) as u8
    }

    /// Replaces byte `i` of the state with `c`.
    pub fn set_char(&mut self, i: usize, c: u8)
        requires
            i < 200,
        ensures
            final(self).chars_view() == old(self).chars_view().update(i as int, c),
    {
        let v = self.uint64s[i / 8];
        let s = ((i % 8) * 8) as u64;
        let nv = (v & !(0xffu64 << s)) | ((c as u64) << s);
        proof {
            assert(nv == with_lane_byte(v, (i % 8) as int, c));
            lemma_set_byte(self.uint64s@, i as int, c);
        }
        self.uint64s[i / 8] = nv;
        assert(self.uint64s@ =~= old(self).uint64s@.update((i / 8) as int, nv));
    }

    /// The 200 bytes of the state.
    pub fn chars(&self) -> (r: [u8; 200])
        ensures
            r@ == self.chars_view(),
    {
        let mut r = [0u8; 200];
        let mut i: usize = 0;
        while i < 200
            invariant
                i <= 200,
                forall|j: int| 0 <= j < i ==> #[trigger] r@[j] == self.chars_view()[j],
            decreases 200 - i,
        {
            r[i] = self.get_char(i);
            i = i + 1;
        }
        assert(r@ =~= self.chars_view());
        r
    }

    /// Copies the bytes of `s` into the state from byte `offset` on and
    /// returns their number.
    pub fn fill_sponge_single(&mut self, offset: usize, s: &SmallString) -> (r: usize)
        requires
            s.length <= 128,
            offset + s.length <= 200,
        ensures
            r == s.length,
            final(self).chars_view() == Seq::new(
                200,
                |i: int|
                    if offset <= i < offset + s.length {
                        s.data@[i - offset]
                    } else {
                        old(self).chars_view()[i]
                    },
            ),
    {
        let n = s.length;
        let mut j: usize = 0;
        while j < n
            invariant
                j <= n,
                n == s.length,
                n <= 128,
                offset + n <= 200,
                self.chars_view().len() == 200,
                forall|i: int|
                    0 <= i < 200 ==> #[trigger] self.chars_view()[i] == if offset <= i < offset + j {
                        s.data@[i - offset]
                    } else {
                        old(self).chars_view()[i]
                    },
            decreases n - j,
        {
            self.set_char(offset + j, s.data[j]);
            j = j + 1;
        }
        assert(self.chars_view() =~= Seq::new(
            200,
            |i: int|
                if offset <= i < offset + s.length {
                    s.data@[i - offset]
                } else {
                    old(self).chars_view()[i]
                },
        ));
        n
    }

    /// Writes the message for `nonce` into the state, zeros after it up to
    /// the end of the state (byte 199, capacity bytes included), and `0x80` at
    /// byte 135; returns the length of the message. Clearing the capacity
    /// bytes as well makes the new state depend on the message alone, so a
    /// sponge that was permuted before can be filled again and hashes the new
    /// message correctly.
    pub fn fill_sponge(
        &mut self,
        function_name: &SmallString,
        nonce: u64,
        function_params: &SmallString,
    ) -> (r: usize)
        requires
            function_name.length <= 128,
            function_params.length <= 128,
            message(function_name.bytes(), nonce, function_params.bytes()).len() <= 200,
        ensures
            r == message(function_name.bytes(), nonce, function_params.bytes()).len(),
            final(self).chars_view() == filled_block(
                message(function_name.bytes(), nonce, function_params.bytes()),
            ),
            final(self).chars_view()[135] == 0x80,
            forall|i: int|
                0 <= i < message(function_name.bytes(), nonce, function_params.bytes()).len() && i != 135 ==> #[trigger] final(self).chars_view()[i]
                    == message(function_name.bytes(), nonce, function_params.bytes())[i],
            forall|i: int|
                message(function_name.bytes(), nonce, function_params.bytes()).len() <= i < 200 && i != 135 ==> #[trigger] final(self).chars_view()[i]
                    == 0,
    {
        let ghost msg = message(function_name.bytes(), nonce, function_params.bytes());
        let ghost digits = decimal(nonce as nat);
        proof {
            lemma_decimal_len_u64(nonce);
        }
        let mut offset = self.fill_sponge_single(0, function_name);
        assert forall|i: int| 0 <= i < offset implies #[trigger] self.chars_view()[i] == msg[i] by {
        }
        let mut d = [0u8; 32];
        let nd = write_decimal(&mut d, nonce);
        assert(d@.subrange(0, nd as int) =~= digits);
        let mut i: usize = 0;
        while i < nd
            invariant
                i <= nd,
                nd == digits.len(),
                nd <= 20,
                offset == function_name.length,
                offset + nd + function_params.length == msg.len(),
                msg.len() <= 200,
                msg == function_name.bytes() + digits + function_params.bytes(),
                d@.subrange(0, nd as int) == digits,
                self.chars_view().len() == 200,
                forall|j: int| 0 <= j < offset + i ==> #[trigger] self.chars_view()[j] == msg[j],
            decreases nd - i,
        {
            self.set_char(offset + i, d[i]);
            assert(d@[i as int] == digits[i as int]);
            i = i + 1;
        }
        offset = offset + nd;
        let ghost before = self.chars_view();
        let np = self.fill_sponge_single(offset, function_params);
        assert forall|j: int| 0 <= j < offset + np implies #[trigger] self.chars_view()[j] == msg[j] by {
            if j >= offset {
                assert(self.chars_view()[j] == function_params.data@[j - offset]);
            } else {
                assert(self.chars_view()[j] == before[j]);
            }
        }
        offset = offset + np;
        let mut k: usize = offset;
        while k < 200
            invariant
                offset <= k <= 200,
                offset == msg.len(),
                self.chars_view().len() == 200,
                forall|j: int| 0 <= j < offset ==> #[trigger] self.chars_view()[j] == msg[j],
                forall|j: int| offset <= j < k ==> #[trigger] self.chars_view()[j] == 0,
            decreases 200 - k,
        {
            self.set_char(k, 0);
            k = k + 1;
        }
        self.set_char(135, 0x80);
        assert(self.chars_view() =~= filled_block(msg));
        offset
    }

    /// Writes the padded block for `nonce` into the state: the message,
    /// the domain byte `0x01` after it, zeros, and `0x80` at byte 135.
    pub fn fill(&mut self, function_name: &SmallString, nonce: u64, function_params: &SmallString)
        requires
            function_name.length <= 128,
            function_params.length <= 128,
            message(function_name.bytes(), nonce, function_params.bytes()).len() < 200,
        ensures
            final(self).chars_view() == padded_block(
                message(function_name.bytes(), nonce, function_params.bytes()),
            ),
            final(self).uint64s@ == bytes_to_lanes(
                padded_block(message(function_name.bytes(), nonce, function_params.bytes())),
            ),
            message(function_name.bytes(), nonce, function_params.bytes()).len() <= 134 ==> final(self).chars_view().subrange(0, 136)
                == keccak_rate_block(message(function_name.bytes(), nonce, function_params.bytes())),
            message(function_name.bytes(), nonce, function_params.bytes()).len() <= 134 ==> forall|i: int|
                136 <= i < 200 ==> #[trigger] final(self).chars_view()[i] == 0,
    {
        let o = self.fill_sponge(function_name, nonce, function_params);
        self.set_char(o, 0x01);
        proof {
            if message(function_name.bytes(), nonce, function_params.bytes()).len() <= 134 {
                lemma_padded_block_is_keccak_padding(message(function_name.bytes(), nonce, function_params.bytes()));
            }
            lemma_lanes_bytes_round_trip(self.uint64s@);
        }
    }

    /// Writes the message for `nonce` into the state as `fill_sponge` does,
    /// with a zero byte after it, and returns the message as a string.
    pub fn fill_and_get_name(
        &mut self,
        function_name: &SmallString,
        nonce: u64,
        function_params: &SmallString,
    ) -> (r: String)
        requires
            function_name.length <= 128,
            function_params.length <= 128,
            message(function_name.bytes(), nonce, function_params.bytes()).len() < 200,
            valid_utf8(
                written_text(message(function_name.bytes(), nonce, function_params.bytes())),
            ),
        ensures
            final(self).chars_view() == filled_block(
                message(function_name.bytes(), nonce, function_params.bytes()),
            ).update(message(function_name.bytes(), nonce, function_params.bytes()).len() as int, 0u8),
            r@ == decode_utf8(
                written_text(message(function_name.bytes(), nonce, function_params.bytes())),
            ),
    {
        let ghost msg = message(function_name.bytes(), nonce, function_params.bytes());
        let o = self.fill_sponge(function_name, nonce, function_params);
        self.set_char(o, 0);
        let mut v: Vec<u8> = Vec::new();
        let mut i: usize = 0;
        while i < o
            invariant
                i <= o,
                o == msg.len(),
                o < 200,
                self.chars_view() == filled_block(msg).update(o as int, 0u8),
                v@ == written_text(msg).subrange(0, i as int),
            decreases o - i,
        {
            let c = self.get_char(i);
            v.push(c);
            assert(v@ =~= written_text(msg).subrange(0, i + 1));
            i = i + 1;
        }
        assert(v@ =~= written_text(msg));
        string_from_utf8(v).unwrap()
    }

    /// Runs the 24 rounds of Keccak-f[1600] on the state.
    pub fn iters(&mut self)
        ensures
            final(self).uint64s@ == keccak_f(old(self).uint64s@),
    {
        iters(&mut self.uint64s);
        proof {
            assert(lanes_at(self.uint64s@, 0) =~= self.uint64s@);
            assert(lanes_at(old(self).uint64s@, 0) =~= old(self).uint64s@);
        }
    }

    /// Runs one round of Keccak-f[1600] with round constant `x` on the state,
    /// with `b` as scratch.
    pub fn iter(&mut self, b: &mut [u64; 5], x: u64)
        ensures
            final(self).uint64s@ == keccak_round(old(self).uint64s@, x),
            final(b)@ == round_scratch(old(b)@, old(self).uint64s@),
    {
        iter(&mut self.uint64s, b, x);
        proof {
            assert(lanes_at(self.uint64s@, 0) =~= self.uint64s@);
            assert(lanes_at(old(self).uint64s@, 0) =~= old(self).uint64s@);
            assert(lanes_at(b@, 0) =~= b@);
            assert(lanes_at(old(b)@, 0) =~= old(b)@);
        }
    }

    /// Applies Keccak-f[1600] to the state and returns the low 32 bits of its
    /// first lane: for a state filled by `fill` with a message of at most 134
    /// bytes, the first four bytes of the Keccak-256 digest of the message,
    /// read as a little-endian number.
    pub fn compute_selectors(&mut self) -> (r: u32)
        ensures
            final(self).uint64s@ == keccak_f(old(self).uint64s@),
            r == old(self).selector(),
    {
        self.iters();
        self.uint64s[0] as u32
    }
}

impl core::default::Default for Sponge {
    fn default() -> (r: Self)
        ensures
            r.uint64s@ == Seq::new(25, |i: int| 0u64),
    {
        let r = Sponge { uint64s: [0u64; 25] };
        assert(r.uint64s@ =~= Seq::new(25, |i: int| 0u64));
        r
    }
}

} // verus!
