use vstd::prelude::*;

verus! {

// The byte view of a state of 64-bit lanes, as the lanes lie in memory on a
// little-endian machine: byte `8 * i + j` of the state is byte `j` (counting
// from the least significant) of lane `i`.

/// Byte `j` (`0 <= j < 8`, least significant first) of `v`.
pub open spec fn lane_byte(v: u64, j: int) -> u8 {
    ((v >> ((8 * j) as u64)) & 0xff) as u8
}

/// The little-endian bytes of a sequence of lanes.
pub open spec fn lanes_to_bytes(lanes: Seq<u64>) -> Seq<u8> {
    Seq::new(8 * lanes.len(), |i: int| lane_byte(lanes[i / 8], i % 8))
}

/// The lane whose little-endian bytes are `b[off..off + 8]`.
pub open spec fn le_u64(b: Seq<u8>, off: int) -> u64 {
    (b[off] as u64) | ((b[off + 1] as u64) << 8) | ((b[off + 2] as u64) << 16) | ((b[off + 3] as u64)
        << 24) | ((b[off + 4] as u64) << 32) | ((b[off + 5] as u64) << 40) | ((b[off + 6] as u64)
        << 48) | ((b[off + 7] as u64) << 56)
}

/// The lanes whose little-endian bytes are `b` (of a length divisible by 8).
pub open spec fn bytes_to_lanes(b: Seq<u8>) -> Seq<u64> {
    Seq::new(b.len() / 8, |i: int| le_u64(b, 8 * i))
}

proof fn lemma_lane_bytes_recompose(v: u64)
    ensures
        v == (lane_byte(v, 0) as u64) | ((lane_byte(v, 1) as u64) << 8) | ((lane_byte(v, 2) as u64)
            << 16) | ((lane_byte(v, 3) as u64) << 24) | ((lane_byte(v, 4) as u64) << 32) | ((lane_byte(
            v,
            5,
        ) as u64) << 40) | ((lane_byte(v, 6) as u64) << 48) | ((lane_byte(v, 7) as u64) << 56),
{
    assert(v == ((v >> 0u64) & 0xff) | (((v >> 8u64) & 0xff) << 8u64) | (((v >> 16u64) & 0xff)
        << 16u64) | (((v >> 24u64) & 0xff) << 24u64) | (((v >> 32u64) & 0xff) << 32u64) | (((v
        >> 40u64) & 0xff) << 40u64) | (((v >> 48u64) & 0xff) << 48u64) | (((v >> 56u64) & 0xff)
        << 56u64)) by (bit_vector);
    assert(lane_byte(v, 0) as u64 == (v >> 0u64) & 0xff) by (bit_vector);
    assert(lane_byte(v, 1) as u64 == (v >> 8u64) & 0xff) by (bit_vector);
    assert(lane_byte(v, 2) as u64 == (v >> 16u64) & 0xff) by (bit_vector);
    assert(lane_byte(v, 3) as u64 == (v >> 24u64) & 0xff) by (bit_vector);
    assert(lane_byte(v, 4) as u64 == (v >> 32u64) & 0xff) by (bit_vector);
    assert(lane_byte(v, 5) as u64 == (v >> 40u64) & 0xff) by (bit_vector);
    assert(lane_byte(v, 6) as u64 == (v >> 48u64) & 0xff) by (bit_vector);
    assert(lane_byte(v, 7) as u64 == (v >> 56u64) & 0xff) by (bit_vector);
}

/// Reading the little-endian lanes back from the bytes of a state gives the state.
pub proof fn lemma_lanes_bytes_round_trip(lanes: Seq<u64>)
    ensures
        bytes_to_lanes(lanes_to_bytes(lanes)) == lanes,
{
    let b = lanes_to_bytes(lanes);
    assert forall|i: int| 0 <= i < lanes.len() implies #[trigger] bytes_to_lanes(b)[i] == lanes[i] by {
        let v = lanes[i];
        lemma_lane_bytes_recompose(v);
        assert(b[8 * i] == lane_byte(v, 0));
        assert(b[8 * i + 1] == lane_byte(v, 1));
        assert(b[8 * i + 2] == lane_byte(v, 2));
        assert(b[8 * i + 3] == lane_byte(v, 3));
        assert(b[8 * i + 4] == lane_byte(v, 4));
        assert(b[8 * i + 5] == lane_byte(v, 5));
        assert(b[8 * i + 6] == lane_byte(v, 6));
        assert(b[8 * i + 7] == lane_byte(v, 7));
    }
    assert(bytes_to_lanes(b) =~= lanes);
}

/// The lane with byte `k` replaced by `c`.
pub open spec fn with_lane_byte(v: u64, k: int, c: u8) -> u64 {
    (v & !(0xffu64 << ((8 * k) as u64))) | ((c as u64) << ((8 * k) as u64))
}

proof fn lemma_with_lane_byte(v: u64, k: u64, c: u8, j: u64)
    requires
        k < 8,
        j < 8,
    ensures
        lane_byte(with_lane_byte(v, k as int, c), j as int) == if j == k { c } else { lane_byte(v, j as int) },
{
    let sk = (8 * k) as u64;
    let sj = (8 * j) as u64;
    assert(sk == 8 * k && sj == 8 * j);
    if j == k {
        assert((((v & !(0xffu64 << sk)) | ((c as u64) << sk)) >> sj) & 0xff == c as u64) by (bit_vector)
            requires
                sk == sj,
                sk <= 56,
        ;
    } else {
        assert((((v & !(0xffu64 << sk)) | ((c as u64) << sk)) >> sj) & 0xff == (v >> sj) & 0xff)
            by (bit_vector)
            requires
                sk <= 56,
                sj <= 56,
                sk % 8 == 0,
                sj % 8 == 0,
                sk != sj,
        ;
    }
}

/// Replacing one byte of a state through its lane changes that byte only.
pub proof fn lemma_set_byte(lanes: Seq<u64>, i: int, c: u8)
    requires
        0 <= i < 8 * lanes.len(),
    ensures
        lanes_to_bytes(lanes.update(i / 8, with_lane_byte(lanes[i / 8], i % 8, c))) == lanes_to_bytes(
            lanes,
        ).update(i, c),
{
    let new_lanes = lanes.update(i / 8, with_lane_byte(lanes[i / 8], i % 8, c));
    assert forall|x: int| 0 <= x < 8 * lanes.len() implies #[trigger] lanes_to_bytes(new_lanes)[x]
        == lanes_to_bytes(lanes).update(i, c)[x] by {
        if x / 8 == i / 8 {
            lemma_with_lane_byte(lanes[i / 8], (i % 8) as u64, c, (x % 8) as u64);
        }
    }
    assert(lanes_to_bytes(new_lanes) =~= lanes_to_bytes(lanes).update(i, c));
}

} // verus!
