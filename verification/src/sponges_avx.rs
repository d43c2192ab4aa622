use vstd::prelude::*;

use crate::bytes::bytes_to_lanes;
use crate::keccak::{iter, iters, round_scratch};
use crate::keccak_spec::{keccak_f, keccak_round};
use crate::lanes::{lanes_at, Lanes};
use crate::small_string::SmallString;
use vstd::std_specs::ops::{BitAndSpec, BitOrSpec, BitXorSpec, NotSpec, ShlSpec, ShrSpec};
use crate::sponge::{message, padded_block, Sponge};

verus! {

/// Four 64-bit lanes processed together: lane `k` belongs to the `k`-th of
/// four sponges that are permuted side by side.
#[derive(Clone, Copy, Debug)]
pub struct SpongeComputeSlice {
    pub slice: [u64; 4],
}

impl SpongeComputeSlice {
    /// The slice whose lane `k` is `vals[k]`.
    pub fn from_vals(vals: [u64; 4]) -> (r: SpongeComputeSlice)
        ensures
            r.slice@ == vals@,
    {
        SpongeComputeSlice { slice: vals }
    }

    /// The values of the four lanes, lane 0 first.
    pub fn vals(&self) -> (r: [u64; 4])
        ensures
            r@ == self.slice@,
    {
        self.slice
    }
}

impl SpongeComputeSlice {
    /// The slice whose every lane is `f` of the same lane of `self`.
    pub open spec fn map_lanes(self, f: spec_fn(u64) -> u64) -> SpongeComputeSlice {
        SpongeComputeSlice {
            slice: [f(self.slice[0]), f(self.slice[1]), f(self.slice[2]), f(self.slice[3])],
        }
    }

    /// The slice whose every lane is `f` of the same lanes of `self` and `rhs`.
    pub open spec fn zip_lanes(
        self,
        rhs: SpongeComputeSlice,
        f: spec_fn(u64, u64) -> u64,
    ) -> SpongeComputeSlice {
        SpongeComputeSlice {
            slice: [
                f(self.slice[0], rhs.slice[0]),
                f(self.slice[1], rhs.slice[1]),
                f(self.slice[2], rhs.slice[2]),
                f(self.slice[3], rhs.slice[3]),
            ],
        }
    }
}

impl Lanes for SpongeComputeSlice {
    open spec fn lane_count() -> nat {
        4
    }

    open spec fn lane(&self, k: int) -> u64 {
        self.slice@[k]
    }

    fn zero() -> (r: Self) {
        SpongeComputeSlice { slice: [0, 0, 0, 0] }
    }

    fn xor(self, rhs: Self) -> (r: Self) {
        let a = self.slice;
        let b = rhs.slice;
        SpongeComputeSlice { slice: [a[0] ^ b[0], a[1] ^ b[1], a[2] ^ b[2], a[3] ^ b[3]] }
    }

    fn xor_u64(self, rhs: u64) -> (r: Self) {
        let a = self.slice;
        SpongeComputeSlice { slice: [a[0] ^ rhs, a[1] ^ rhs, a[2] ^ rhs, a[3] ^ rhs] }
    }

    fn and(self, rhs: Self) -> (r: Self) {
        let a = self.slice;
        let b = rhs.slice;
        SpongeComputeSlice { slice: [a[0] & b[0], a[1] & b[1], a[2] & b[2], a[3] & b[3]] }
    }

    fn or(self, rhs: Self) -> (r: Self) {
        let a = self.slice;
        let b = rhs.slice;
        SpongeComputeSlice { slice: [a[0] | b[0], a[1] | b[1], a[2] | b[2], a[3] | b[3]] }
    }

    fn not(self) -> (r: Self) {
        let a = self.slice;
        SpongeComputeSlice { slice: [!a[0], !a[1], !a[2], !a[3]] }
    }

    fn shl(self, shift: u32) -> (r: Self) {
        let a = self.slice;
        SpongeComputeSlice { slice: [a[0] << shift, a[1] << shift, a[2] << shift, a[3] << shift] }
    }

    fn shr(self, shift: u32) -> (r: Self) {
        let a = self.slice;
        SpongeComputeSlice { slice: [a[0] >> shift, a[1] >> shift, a[2] >> shift, a[3] >> shift] }
    }
}


impl core::ops::BitOr for SpongeComputeSlice {
    type Output = Self;

    fn bitor(self, rhs: Self) -> (r: Self) {
        let a = self.slice;
        let b = rhs.slice;
        SpongeComputeSlice { slice: [a[0] | b[0], a[1] | b[1], a[2] | b[2], a[3] | b[3]] }
    }
}

impl vstd::std_specs::ops::BitOrSpecImpl for SpongeComputeSlice {
    open spec fn obeys_bitor_spec() -> bool {
        true
    }

    open spec fn bitor_req(self, rhs: Self) -> bool {
        true
    }

    open spec fn bitor_spec(self, rhs: Self) -> Self {
        self.zip_lanes(rhs, |a: u64, b: u64| a | b)
    }
}

impl core::ops::BitXor for SpongeComputeSlice {
    type Output = Self;

    fn bitxor(self, rhs: Self) -> (r: Self) {
        let a = self.slice;
        let b = rhs.slice;
        SpongeComputeSlice { slice: [a[0] ^ b[0], a[1] ^ b[1], a[2] ^ b[2], a[3] ^ b[3]] }
    }
}

impl vstd::std_specs::ops::BitXorSpecImpl for SpongeComputeSlice {
    open spec fn obeys_bitxor_spec() -> bool {
        true
    }

    open spec fn bitxor_req(self, rhs: Self) -> bool {
        true
    }

    open spec fn bitxor_spec(self, rhs: Self) -> Self {
        self.zip_lanes(rhs, |a: u64, b: u64| a ^ b)
    }
}

impl core::ops::BitAnd for SpongeComputeSlice {
    type Output = Self;

    fn bitand(self, rhs: Self) -> (r: Self) {
        let a = self.slice;
        let b = rhs.slice;
        SpongeComputeSlice { slice: [a[0] & b[0], a[1] & b[1], a[2] & b[2], a[3] & b[3]] }
    }
}

impl vstd::std_specs::ops::BitAndSpecImpl for SpongeComputeSlice {
    open spec fn obeys_bitand_spec() -> bool {
        true
    }

    open spec fn bitand_req(self, rhs: Self) -> bool {
        true
    }

    open spec fn bitand_spec(self, rhs: Self) -> Self {
        self.zip_lanes(rhs, |a: u64, b: u64| a & b)
    }
}

impl core::ops::Not for SpongeComputeSlice {
    type Output = Self;

    fn not(self) -> (r: Self) {
        let a = self.slice;
        SpongeComputeSlice { slice: [!a[0], !a[1], !a[2], !a[3]] }
    }
}

impl vstd::std_specs::ops::NotSpecImpl for SpongeComputeSlice {
    open spec fn obeys_not_spec() -> bool {
        true
    }

    open spec fn not_req(self) -> bool {
        true
    }

    open spec fn not_spec(self) -> Self {
        self.map_lanes(|a: u64| !a)
    }
}

/// Every lane shifted by `rhs` bits; a shift of 64 or more clears every lane.
impl core::ops::Shl<u32> for SpongeComputeSlice {
    type Output = Self;

    fn shl(self, rhs: u32) -> (r: Self) {
        if rhs < 64 {
            let a = self.slice;
            SpongeComputeSlice { slice: [a[0] << rhs, a[1] << rhs, a[2] << rhs, a[3] << rhs] }
        } else {
            SpongeComputeSlice { slice: [0, 0, 0, 0] }
        }
    }
}

impl vstd::std_specs::ops::ShlSpecImpl<u32> for SpongeComputeSlice {
    open spec fn obeys_shl_spec() -> bool {
        true
    }

    open spec fn shl_req(self, rhs: u32) -> bool {
        true
    }

    open spec fn shl_spec(self, rhs: u32) -> Self {
        self.map_lanes(|a: u64| if rhs < 64 { a << rhs } else { 0 })
    }
}

/// Every lane shifted by `rhs` bits; a shift of 64 or more clears every lane.
impl core::ops::Shr<u32> for SpongeComputeSlice {
    type Output = Self;

    fn shr(self, rhs: u32) -> (r: Self) {
        if rhs < 64 {
            let a = self.slice;
            SpongeComputeSlice { slice: [a[0] >> rhs, a[1] >> rhs, a[2] >> rhs, a[3] >> rhs] }
        } else {
            SpongeComputeSlice { slice: [0, 0, 0, 0] }
        }
    }
}

impl vstd::std_specs::ops::ShrSpecImpl<u32> for SpongeComputeSlice {
    open spec fn obeys_shr_spec() -> bool {
        true
    }

    open spec fn shr_req(self, rhs: u32) -> bool {
        true
    }

    open spec fn shr_spec(self, rhs: u32) -> Self {
        self.map_lanes(|a: u64| if rhs < 64 { a >> rhs } else { 0 })
    }
}

impl core::ops::BitXorAssign<u64> for SpongeComputeSlice {
    fn bitxor_assign(&mut self, rhs: u64)
        ensures
            *final(self) == old(self).map_lanes(|a: u64| a ^ rhs),
    {
        let a = self.slice;
        *self = SpongeComputeSlice { slice: [a[0] ^ rhs, a[1] ^ rhs, a[2] ^ rhs, a[3] ^ rhs] };
    }
}

impl core::ops::BitXorAssign for SpongeComputeSlice {
    fn bitxor_assign(&mut self, rhs: Self)
        ensures
            *final(self) == old(self).zip_lanes(rhs, |a: u64, b: u64| a ^ b),
    {
        let a = self.slice;
        let b = rhs.slice;
        *self = SpongeComputeSlice { slice: [a[0] ^ b[0], a[1] ^ b[1], a[2] ^ b[2], a[3] ^ b[3]] };
    }
}

impl core::default::Default for SpongeComputeSlice {
    fn default() -> (r: Self)
        ensures
            r.slice@ == seq![0u64, 0, 0, 0],
    {
        let r = SpongeComputeSlice { slice: [0, 0, 0, 0] };
        assert(r.slice@ =~= seq![0u64, 0, 0, 0]);
        r
    }
}

/// Four sponges that are permuted together: `compute_slices[i]` holds lane
/// `i` of each of the four states, the state of sponge `k` in lane `k`.
pub struct SpongesAvx {
    pub sponges: [Sponge; 4],
    pub compute_slices: [SpongeComputeSlice; 25],
}

impl SpongesAvx {
    /// The state that lane `k` of the compute slices holds.
    pub open spec fn lane_state(self, k: int) -> Seq<u64> {
        lanes_at(self.compute_slices@, k)
    }

    /// The selector that `compute_selectors` returns for lane `k`, computed
    /// from that lane's state as `Sponge::selector` is from a sponge's.
    pub open spec fn lane_selector(self, k: int) -> u32 {
        keccak_f(self.lane_state(k))[0] as u32
    }

    /// The message for nonce `nonce + k` fits in a sponge for every `k < 4`.
    pub open spec fn fits(name: &SmallString, nonce: u64, params: &SmallString) -> bool {
        &&& name.length <= 128
        &&& params.length <= 128
        &&& nonce <= u64::MAX - 3
        &&& forall|k: int|
            0 <= k < 4 ==> (#[trigger] message(name.bytes(), (nonce + k) as u64, params.bytes())).len()
                < 200
    }

    fn transpose(&mut self)
        ensures
            final(self).sponges == old(self).sponges,
            forall|k: int| 0 <= k < 4 ==> #[trigger] final(self).lane_state(k) == old(self).sponges[k].uint64s@,
    {
        let mut idx: usize = 0;
        while idx < 25
            invariant
                idx <= 25,
                self.sponges == old(self).sponges,
                forall|i: int, k: int|
                    0 <= i < idx && 0 <= k < 4 ==> #[trigger] self.compute_slices@[i].slice@[k]
                        == self.sponges[k].uint64s@[i],
            decreases 25 - idx,
        {
            let v = SpongeComputeSlice {
                slice: [
                    self.sponges[0].uint64s[idx],
                    self.sponges[1].uint64s[idx],
                    self.sponges[2].uint64s[idx],
                    self.sponges[3].uint64s[idx],
                ],
            };
            self.compute_slices[idx] = v;
            idx = idx + 1;
        }
        assert forall|k: int| 0 <= k < 4 implies #[trigger] self.lane_state(k) == old(self).sponges[k].uint64s@ by {
            assert(self.lane_state(k) =~= old(self).sponges[k].uint64s@);
        }
    }

    /// Fills sponge `k` with the padded block for nonce `nonce + k` and loads
    /// the four states into the compute slices.
    pub fn fill(&mut self, function_name: &SmallString, nonce: u64, function_params: &SmallString)
        requires
            SpongesAvx::fits(function_name, nonce, function_params),
        ensures
            forall|k: int|
                0 <= k < 4 ==> #[trigger] final(self).sponges[k].chars_view() == padded_block(
                    message(function_name.bytes(), (nonce + k) as u64, function_params.bytes()),
                ),
            forall|k: int|
                0 <= k < 4 ==> #[trigger] final(self).lane_state(k) == bytes_to_lanes(
                    padded_block(
                        message(function_name.bytes(), (nonce + k) as u64, function_params.bytes()),
                    ),
                ),
            forall|k: int| 0 <= k < 4 ==> #[trigger] final(self).sponges[k].uint64s@ == final(self).lane_state(k),
    {
        let mut idx: usize = 0;
        while idx < 4
            invariant
                idx <= 4,
                SpongesAvx::fits(function_name, nonce, function_params),
                forall|k: int|
                    0 <= k < idx ==> #[trigger] self.sponges[k].chars_view() == padded_block(
                        message(function_name.bytes(), (nonce + k) as u64, function_params.bytes()),
                    ),
                forall|k: int|
                    0 <= k < idx ==> #[trigger] self.sponges[k].uint64s@ == bytes_to_lanes(
                        padded_block(
                            message(function_name.bytes(), (nonce + k) as u64, function_params.bytes()),
                        ),
                    ),
            decreases 4 - idx,
        {
            assert(message(function_name.bytes(), (nonce + idx as int) as u64, function_params.bytes()).len() < 200);
            let mut sponge = Sponge { uint64s: self.sponges[idx].uint64s };
            let n = nonce + idx as u64;
            sponge.fill(function_name, n, function_params);
            let ghost prev = self.sponges;
            self.sponges[idx] = sponge;
            assert(self.sponges@ == prev@.update(idx as int, sponge));
            idx = idx + 1;
        }
        let ghost filled = self.sponges;
        self.transpose();
        assert forall|k: int| 0 <= k < 4 implies #[trigger] self.lane_state(k) == bytes_to_lanes(
            padded_block(message(function_name.bytes(), (nonce + k) as u64, function_params.bytes())),
        ) by {
            assert(self.lane_state(k) == filled[k].uint64s@);
        }
    }

    /// Four sponges filled with the padded blocks for nonces `nonce` to
    /// `nonce + 3`, loaded into the compute slices.
    pub fn new(function_name: &SmallString, nonce: u64, function_params: &SmallString) -> (r: Self)
        requires
            SpongesAvx::fits(function_name, nonce, function_params),
        ensures
            forall|k: int|
                0 <= k < 4 ==> #[trigger] r.sponges[k].chars_view() == padded_block(
                    message(function_name.bytes(), (nonce + k) as u64, function_params.bytes()),
                ),
            forall|k: int|
                0 <= k < 4 ==> #[trigger] r.lane_state(k) == bytes_to_lanes(
                    padded_block(
                        message(function_name.bytes(), (nonce + k) as u64, function_params.bytes()),
                    ),
                ),
            forall|k: int| 0 <= k < 4 ==> #[trigger] r.sponges[k].uint64s@ == r.lane_state(k),
    {
        let mut r = SpongesAvx::default();
        r.fill(function_name, nonce, function_params);
        r
    }

    /// Runs one round of Keccak-f[1600] with round constant `x` on all four
    /// states, with `b` as scratch.
    pub fn iter(&mut self, b: &mut [SpongeComputeSlice; 5], x: u64)
        ensures
            final(self).sponges == old(self).sponges,
            forall|k: int| 0 <= k < 4 ==> #[trigger] final(self).lane_state(k) == keccak_round(old(self).lane_state(k), x),
            forall|k: int|
                0 <= k < 4 ==> #[trigger] lanes_at(final(b)@, k) == round_scratch(
                    lanes_at(old(b)@, k),
                    old(self).lane_state(k),
                ),
    {
        iter(&mut self.compute_slices, b, x);
    }

    fn iters(&mut self)
        ensures
            final(self).sponges == old(self).sponges,
            forall|k: int| 0 <= k < 4 ==> #[trigger] final(self).lane_state(k) == keccak_f(old(self).lane_state(k)),
    {
        iters(&mut self.compute_slices);
    }

    /// Applies Keccak-f[1600] to all four states and returns, for each, the
    /// low 32 bits of its first lane, as `Sponge::compute_selectors` does for
    /// one state.
    pub fn compute_selectors(&mut self) -> (r: [u32; 4])
        ensures
            final(self).sponges == old(self).sponges,
            forall|k: int| 0 <= k < 4 ==> #[trigger] final(self).lane_state(k) == keccak_f(old(self).lane_state(k)),
            forall|k: int| 0 <= k < 4 ==> #[trigger] r@[k] == old(self).lane_selector(k),
    {
        self.iters();
        let first = self.compute_slices[0].slice;
        let r = [first[0] as u32, first[1] as u32, first[2] as u32, first[3] as u32];
        assert forall|k: int| 0 <= k < 4 implies #[trigger] r@[k] == keccak_f(old(self).lane_state(k))[0] as u32 by {
            assert(self.lane_state(k)[0] == first@[k]);
        }
        r
    }
}

impl core::default::Default for SpongesAvx {
    fn default() -> (r: Self)
        ensures
            forall|k: int| 0 <= k < 4 ==> #[trigger] r.sponges[k].uint64s@ == Seq::new(25, |i: int| 0u64),
            forall|i: int| 0 <= i < 25 ==> #[trigger] r.compute_slices@[i].slice@ == seq![0u64, 0, 0, 0],
    {
        let r = SpongesAvx {
            sponges: [Sponge::default(), Sponge::default(), Sponge::default(), Sponge::default()],
            compute_slices: [SpongeComputeSlice::default(); 25],
        };
        r
    }
}

/// The operators act on each of the four lanes alone: no bit moves from one
/// lane into another, and complementing twice gives the slice back.
pub proof fn lemma_slice_ops_lane_by_lane(s: SpongeComputeSlice, t: SpongeComputeSlice, r: u32)
    ensures
        forall|k: int| 0 <= k < 4 ==> #[trigger] s.not_spec().slice@[k] == !s.slice@[k],
        s.not_spec().not_spec() == s,
        forall|k: int|
            0 <= k < 4 ==> #[trigger] s.bitxor_spec(t).slice@[k] == s.slice@[k] ^ t.slice@[k],
        forall|k: int|
            0 <= k < 4 ==> #[trigger] s.bitand_spec(t).slice@[k] == s.slice@[k] & t.slice@[k],
        forall|k: int|
            0 <= k < 4 ==> #[trigger] s.bitor_spec(t).slice@[k] == s.slice@[k] | t.slice@[k],
        r < 64 ==> forall|k: int| 0 <= k < 4 ==> #[trigger] s.shl_spec(r).slice@[k] == s.slice@[k] << r,
        r < 64 ==> forall|k: int| 0 <= k < 4 ==> #[trigger] s.shr_spec(r).slice@[k] == s.slice@[k] >> r,
        r >= 64 ==> s.shl_spec(r).slice@ == seq![0u64, 0, 0, 0] && s.shr_spec(r).slice@ == seq![0u64, 0, 0, 0],
{
    let n = s.not_spec();
    assert forall|k: int| 0 <= k < 4 implies !n.slice@[k] == s.slice@[k] by {
        let v = s.slice@[k];
        assert(!!v == v) by (bit_vector);
    }
    assert(n.not_spec().slice =~= s.slice);
    assert(s.shl_spec(r).slice@ =~= seq![0u64, 0, 0, 0] || r < 64);
    assert(s.shr_spec(r).slice@ =~= seq![0u64, 0, 0, 0] || r < 64);
}

} // verus!
