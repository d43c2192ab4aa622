use vstd::prelude::*;

verus! {

/// A word of the Keccak state: one or more independent 64-bit lanes that every
/// operation acts on lane by lane. A plain `u64` is a word of one lane.
pub trait Lanes: Copy + Sized {
    /// Number of independent lanes held by one word.
    spec fn lane_count() -> nat;

    /// The value of lane `k` (meaningful for `0 <= k < lane_count()`).
    spec fn lane(&self, k: int) -> u64;

    /// The word whose lanes are all zero.
    fn zero() -> (r: Self)
        ensures
            forall|k: int| 0 <= k < Self::lane_count() ==> #[trigger] r.lane(k) == 0,
    ;

    /// Lane-wise exclusive or.
    fn xor(self, rhs: Self) -> (r: Self)
        ensures
            forall|k: int|
                0 <= k < Self::lane_count() ==> #[trigger] r.lane(k) == self.lane(k) ^ rhs.lane(k),
    ;

    /// Exclusive or of every lane with the same 64-bit value.
    fn xor_u64(self, rhs: u64) -> (r: Self)
        ensures
            forall|k: int| 0 <= k < Self::lane_count() ==> #[trigger] r.lane(k) == self.lane(k) ^ rhs,
    ;

    /// Lane-wise and.
    fn and(self, rhs: Self) -> (r: Self)
        ensures
            forall|k: int|
                0 <= k < Self::lane_count() ==> #[trigger] r.lane(k) == self.lane(k) & rhs.lane(k),
    ;

    /// Lane-wise or.
    fn or(self, rhs: Self) -> (r: Self)
        ensures
            forall|k: int|
                0 <= k < Self::lane_count() ==> #[trigger] r.lane(k) == self.lane(k) | rhs.lane(k),
    ;

    /// Lane-wise complement.
    fn not(self) -> (r: Self)
        ensures
            forall|k: int| 0 <= k < Self::lane_count() ==> #[trigger] r.lane(k) == !self.lane(k),
    ;

    /// Lane-wise logical shift left.
    fn shl(self, shift: u32) -> (r: Self)
        requires
            shift < 64,
        ensures
            forall|k: int| 0 <= k < Self::lane_count() ==> #[trigger] r.lane(k) == self.lane(k) << shift,
    ;

    /// Lane-wise logical shift right.
    fn shr(self, shift: u32) -> (r: Self)
        requires
            shift < 64,
        ensures
            forall|k: int| 0 <= k < Self::lane_count() ==> #[trigger] r.lane(k) == self.lane(k) >> shift,
    ;
}

impl Lanes for u64 {
    open spec fn lane_count() -> nat {
        1
    }

    open spec fn lane(&self, k: int) -> u64 {
        *self
    }

    fn zero() -> (r: Self) {
        0
    }

    fn xor(self, rhs: Self) -> (r: Self) {
        self ^ rhs
    }

    fn xor_u64(self, rhs: u64) -> (r: Self) {
        self ^ rhs
    }

    fn and(self, rhs: Self) -> (r: Self) {
        self & rhs
    }

    fn or(self, rhs: Self) -> (r: Self) {
        self | rhs
    }

    fn not(self) -> (r: Self) {
        !self
    }

    fn shl(self, shift: u32) -> (r: Self) {
        self << shift
    }

    fn shr(self, shift: u32) -> (r: Self) {
        self >> shift
    }
}

/// Lane `k` of every word of a sequence of words.
pub open spec fn lanes_at<T: Lanes>(a: Seq<T>, k: int) -> Seq<u64> {
    a.map_values(|t: T| t.lane(k))
}

} // verus!
