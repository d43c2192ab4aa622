use vstd::prelude::*;

use crate::keccak_spec::{
    column_parity, keccak_f, keccak_round, keccak_rounds, pi_source, rotl, round_constants, spec_chi,
    spec_iota, spec_rho_pi, spec_theta, theta_effect,
};
use crate::lanes::{lanes_at, Lanes};
use crate::sponges_avx::SpongeComputeSlice;

verus! {

/// `s` with `t` folded into the five lanes `o`, `o + 5`, ..., `o + 20`
/// (column `o` when `o < 5`).
pub open spec fn xor_column(s: Seq<u64>, o: int, t: u64) -> Seq<u64> {
    Seq::new(s.len(), |i: int| if o <= i <= o + 20 && (i - o) % 5 == 0 { s[i] ^ t } else { s[i] })
}

/// The scratch words after theta: the five column parities of `a`.
pub open spec fn theta_scratch(b: Seq<u64>, a: Seq<u64>) -> Seq<u64> {
    Seq::new(b.len(), |i: int| if i < 5 { column_parity(a, i) } else { b[i] })
}

/// Rotates every lane of `value` left by `shift` bits.
pub fn rotate_left<T: Lanes>(value: T, shift: u32) -> (r: T)
    requires
        0 < shift < 64,
    ensures
        forall|k: int| 0 <= k < T::lane_count() ==> #[trigger] r.lane(k) == rotl(value.lane(k), shift as u64),
{
    let l = value.shl(shift);
    let h = value.shr(64 - shift);
    let r = l.or(h);
    assert forall|k: int| 0 <= k < T::lane_count() implies #[trigger] r.lane(k) == rotl(value.lane(k), shift as u64) by {
        let v = value.lane(k);
        let s = shift;
        assert((v << s) | (v >> ((64 - s) as u32)) == (v << (s as u64)) | (v >> ((64 - s) as u64))) by (bit_vector)
            requires 0 < s < 64;
    }
    r
}

pub(crate) fn theta_<T: Lanes>(a: &mut [T], b: &[T], m: usize, n: usize, o: usize)
    requires
        o + 20 < old(a)@.len(),
        m < b@.len(),
        n < b@.len(),
    ensures
        final(a)@.len() == old(a)@.len(),
        forall|k: int|
            0 <= k < T::lane_count() ==> #[trigger] lanes_at(final(a)@, k) == xor_column(
                lanes_at(old(a)@, k),
                o as int,
                b@[m as int].lane(k) ^ rotl(b@[n as int].lane(k), 1),
            ),
{
    let t = b[m].xor(rotate_left(b[n], 1));
    let v = a[o].xor(t);
    a[o] = v;
    let v = a[o + 5].xor(t);
    a[o + 5] = v;
    let v = a[o + 10].xor(t);
    a[o + 10] = v;
    let v = a[o + 15].xor(t);
    a[o + 15] = v;
    let v = a[o + 20].xor(t);
    a[o + 20] = v;
    assert forall|k: int| 0 <= k < T::lane_count() implies #[trigger] lanes_at(a@, k) == xor_column(
        lanes_at(old(a)@, k),
        o as int,
        b@[m as int].lane(k) ^ rotl(b@[n as int].lane(k), 1),
    ) by {
        assert(lanes_at(a@, k) =~= xor_column(
            lanes_at(old(a)@, k),
            o as int,
            b@[m as int].lane(k) ^ rotl(b@[n as int].lane(k), 1),
        ));
    }
}

/// The theta step on the first 25 words of `a`, lane by lane. The first five
/// words of `b` receive the column parities; both slices keep the rest.
pub fn theta<T: Lanes>(a: &mut [T], b: &mut [T])
    requires
        old(a)@.len() >= 25,
        old(b)@.len() >= 5,
    ensures
        final(a)@.len() == old(a)@.len(),
        final(b)@.len() == old(b)@.len(),
        forall|k: int|
            0 <= k < T::lane_count() ==> #[trigger] lanes_at(final(a)@, k) == spec_theta(
                lanes_at(old(a)@, k),
            ),
        forall|k: int|
            0 <= k < T::lane_count() ==> #[trigger] lanes_at(final(b)@, k) == theta_scratch(
                lanes_at(old(b)@, k),
                lanes_at(old(a)@, k),
            ),
{
    let ghost a0 = a@;
    let v = a[0].xor(a[5]).xor(a[10]).xor(a[15]).xor(a[20]);
    b[0] = v;
    let v = a[1].xor(a[6]).xor(a[11]).xor(a[16]).xor(a[21]);
    b[1] = v;
    let v = a[2].xor(a[7]).xor(a[12]).xor(a[17]).xor(a[22]);
    b[2] = v;
    let v = a[3].xor(a[8]).xor(a[13]).xor(a[18]).xor(a[23]);
    b[3] = v;
    let v = a[4].xor(a[9]).xor(a[14]).xor(a[19]).xor(a[24]);
    b[4] = v;
    assert forall|k: int| 0 <= k < T::lane_count() implies #[trigger] lanes_at(b@, k) == theta_scratch(
        lanes_at(old(b)@, k),
        lanes_at(a0, k),
    ) by {
        assert(lanes_at(b@, k) =~= theta_scratch(lanes_at(old(b)@, k), lanes_at(a0, k)));
    }
    theta_(a, b, 4, 1, 0);
    let ghost a1 = a@;
    theta_(a, b, 0, 2, 1);
    let ghost a2 = a@;
    theta_(a, b, 1, 3, 2);
    let ghost a3 = a@;
    theta_(a, b, 2, 4, 3);
    let ghost a4 = a@;
    theta_(a, b, 3, 0, 4);
    assert forall|k: int| 0 <= k < T::lane_count() implies #[trigger] lanes_at(a@, k) == spec_theta(
        lanes_at(a0, k),
    ) by {
        let s = lanes_at(a0, k);
        assert(lanes_at(a1, k) == xor_column(s, 0, theta_effect(s, 0)));
        assert(lanes_at(a2, k) == xor_column(lanes_at(a1, k), 1, theta_effect(s, 1)));
        assert(lanes_at(a3, k) == xor_column(lanes_at(a2, k), 2, theta_effect(s, 2)));
        assert(lanes_at(a4, k) == xor_column(lanes_at(a3, k), 3, theta_effect(s, 3)));
        assert(lanes_at(a@, k) == xor_column(lanes_at(a4, k), 4, theta_effect(s, 4)));
        assert(lanes_at(a@, k) =~= spec_theta(s));
    }
}

fn rho_pi_<T: Lanes>(a: &mut [T], b: &mut [T], m: usize, n: u32)
    requires
        m < old(a)@.len(),
        old(b)@.len() >= 1,
        0 < n < 64,
    ensures
        final(a)@.len() == old(a)@.len(),
        final(b)@.len() == old(b)@.len(),
        forall|k: int|
            0 <= k < T::lane_count() ==> #[trigger] lanes_at(final(a)@, k) == lanes_at(old(a)@, k).update(
                m as int,
                rotl(old(b)@[0].lane(k), n as u64),
            ),
        forall|k: int|
            0 <= k < T::lane_count() ==> #[trigger] lanes_at(final(b)@, k) == lanes_at(old(b)@, k).update(
                0,
                old(a)@[m as int].lane(k),
            ),
{
    let t = b[0];
    b[0] = a[m];
    a[m] = rotate_left(t, n);
    assert forall|k: int| 0 <= k < T::lane_count() implies #[trigger] lanes_at(a@, k) == lanes_at(old(a)@, k).update(
        m as int,
        rotl(old(b)@[0].lane(k), n as u64),
    ) by {
        assert(lanes_at(a@, k) =~= lanes_at(old(a)@, k).update(m as int, rotl(old(b)@[0].lane(k), n as u64)));
    }
    assert forall|k: int| 0 <= k < T::lane_count() implies #[trigger] lanes_at(b@, k) == lanes_at(old(b)@, k).update(
        0,
        old(a)@[m as int].lane(k),
    ) by {
        assert(lanes_at(b@, k) =~= lanes_at(old(b)@, k).update(0, old(a)@[m as int].lane(k)));
    }
}

/// The rho and pi steps on the first 25 words of `a`, lane by lane. Word 0 of
/// `b` serves as scratch and ends holding the old word 1 of `a`.
#[verifier::rlimit(40)]
pub fn rho_pi<T: Lanes>(a: &mut [T], b: &mut [T])
    requires
        old(a)@.len() >= 25,
        old(b)@.len() >= 1,
    ensures
        final(a)@.len() == old(a)@.len(),
        final(b)@.len() == old(b)@.len(),
        forall|k: int|
            0 <= k < T::lane_count() ==> #[trigger] lanes_at(final(a)@, k) == spec_rho_pi(
                lanes_at(old(a)@, k),
            ),
        forall|k: int|
            0 <= k < T::lane_count() ==> #[trigger] lanes_at(final(b)@, k) == lanes_at(old(b)@, k).update(
                0,
                old(a)@[1].lane(k),
            ),
{
    let ghost a0 = a@;
    let ghost b0 = b@;
    let t = a[1];
    b[0] = a[10];
    a[10] = rotate_left(t, 1);
    let ghost a1 = a@;
    let ghost b1 = b@;
    rho_pi_(a, b, 7, 3);
    let ghost a2 = a@;
    let ghost b2 = b@;
    rho_pi_(a, b, 11, 6);
    let ghost a3 = a@;
    let ghost b3 = b@;
    rho_pi_(a, b, 17, 10);
    let ghost a4 = a@;
    let ghost b4 = b@;
    rho_pi_(a, b, 18, 15);
    let ghost a5 = a@;
    let ghost b5 = b@;
    rho_pi_(a, b, 3, 21);
    let ghost a6 = a@;
    let ghost b6 = b@;
    rho_pi_(a, b, 5, 28);
    let ghost a7 = a@;
    let ghost b7 = b@;
    rho_pi_(a, b, 16, 36);
    let ghost a8 = a@;
    let ghost b8 = b@;
    rho_pi_(a, b, 8, 45);
    let ghost a9 = a@;
    let ghost b9 = b@;
    rho_pi_(a, b, 21, 55);
    let ghost a10 = a@;
    let ghost b10 = b@;
    rho_pi_(a, b, 24, 2);
    let ghost a11 = a@;
    let ghost b11 = b@;
    rho_pi_(a, b, 4, 14);
    let ghost a12 = a@;
    let ghost b12 = b@;
    rho_pi_(a, b, 15, 27);
    let ghost a13 = a@;
    let ghost b13 = b@;
    rho_pi_(a, b, 23, 41);
    let ghost a14 = a@;
    let ghost b14 = b@;
    rho_pi_(a, b, 19, 56);
    let ghost a15 = a@;
    let ghost b15 = b@;
    rho_pi_(a, b, 13, 8);
    let ghost a16 = a@;
    let ghost b16 = b@;
    rho_pi_(a, b, 12, 25);
    let ghost a17 = a@;
    let ghost b17 = b@;
    rho_pi_(a, b, 2, 43);
    let ghost a18 = a@;
    let ghost b18 = b@;
    rho_pi_(a, b, 20, 62);
    let ghost a19 = a@;
    let ghost b19 = b@;
    rho_pi_(a, b, 14, 18);
    let ghost a20 = a@;
    let ghost b20 = b@;
    rho_pi_(a, b, 22, 39);
    let ghost a21 = a@;
    let ghost b21 = b@;
    rho_pi_(a, b, 9, 61);
    let ghost a22 = a@;
    let ghost b22 = b@;
    rho_pi_(a, b, 6, 20);
    let ghost a23 = a@;
    let ghost b23 = b@;
    rho_pi_(a, b, 1, 44);
    let ghost a24 = a@;
    let ghost b24 = b@;
    assert forall|k: int|
        #![trigger lanes_at(a@, k)]
        #![trigger lanes_at(b@, k)]
        0 <= k < T::lane_count() implies lanes_at(a@, k) == spec_rho_pi(lanes_at(a0, k))
            && lanes_at(b@, k) == lanes_at(b0, k).update(0, a0[1].lane(k)) by {
        let s = lanes_at(a0, k);
        assert(lanes_at(a1, k) =~= s.update(10, rotl(s[1], 1)));
        assert(lanes_at(b1, k) =~= lanes_at(b0, k).update(0, s[10]));
        assert(lanes_at(a2, k) == lanes_at(a1, k).update(7, rotl(lanes_at(b1, k)[0], 3)));
        assert(lanes_at(b2, k) == lanes_at(b1, k).update(0, lanes_at(a1, k)[7]));
        assert(lanes_at(a3, k) == lanes_at(a2, k).update(11, rotl(lanes_at(b2, k)[0], 6)));
        assert(lanes_at(b3, k) == lanes_at(b2, k).update(0, lanes_at(a2, k)[11]));
        assert(lanes_at(a4, k) == lanes_at(a3, k).update(17, rotl(lanes_at(b3, k)[0], 10)));
        assert(lanes_at(b4, k) == lanes_at(b3, k).update(0, lanes_at(a3, k)[17]));
        assert(lanes_at(a5, k) == lanes_at(a4, k).update(18, rotl(lanes_at(b4, k)[0], 15)));
        assert(lanes_at(b5, k) == lanes_at(b4, k).update(0, lanes_at(a4, k)[18]));
        assert(lanes_at(a6, k) == lanes_at(a5, k).update(3, rotl(lanes_at(b5, k)[0], 21)));
        assert(lanes_at(b6, k) == lanes_at(b5, k).update(0, lanes_at(a5, k)[3]));
        assert(lanes_at(a7, k) == lanes_at(a6, k).update(5, rotl(lanes_at(b6, k)[0], 28)));
        assert(lanes_at(b7, k) == lanes_at(b6, k).update(0, lanes_at(a6, k)[5]));
        assert(lanes_at(a8, k) == lanes_at(a7, k).update(16, rotl(lanes_at(b7, k)[0], 36)));
        assert(lanes_at(b8, k) == lanes_at(b7, k).update(0, lanes_at(a7, k)[16]));
        assert(lanes_at(a9, k) == lanes_at(a8, k).update(8, rotl(lanes_at(b8, k)[0], 45)));
        assert(lanes_at(b9, k) == lanes_at(b8, k).update(0, lanes_at(a8, k)[8]));
        assert(lanes_at(a10, k) == lanes_at(a9, k).update(21, rotl(lanes_at(b9, k)[0], 55)));
        assert(lanes_at(b10, k) == lanes_at(b9, k).update(0, lanes_at(a9, k)[21]));
        assert(lanes_at(a11, k) == lanes_at(a10, k).update(24, rotl(lanes_at(b10, k)[0], 2)));
        assert(lanes_at(b11, k) == lanes_at(b10, k).update(0, lanes_at(a10, k)[24]));
        assert(lanes_at(a12, k) == lanes_at(a11, k).update(4, rotl(lanes_at(b11, k)[0], 14)));
        assert(lanes_at(b12, k) == lanes_at(b11, k).update(0, lanes_at(a11, k)[4]));
        assert(lanes_at(a13, k) == lanes_at(a12, k).update(15, rotl(lanes_at(b12, k)[0], 27)));
        assert(lanes_at(b13, k) == lanes_at(b12, k).update(0, lanes_at(a12, k)[15]));
        assert(lanes_at(a14, k) == lanes_at(a13, k).update(23, rotl(lanes_at(b13, k)[0], 41)));
        assert(lanes_at(b14, k) == lanes_at(b13, k).update(0, lanes_at(a13, k)[23]));
        assert(lanes_at(a15, k) == lanes_at(a14, k).update(19, rotl(lanes_at(b14, k)[0], 56)));
        assert(lanes_at(b15, k) == lanes_at(b14, k).update(0, lanes_at(a14, k)[19]));
        assert(lanes_at(a16, k) == lanes_at(a15, k).update(13, rotl(lanes_at(b15, k)[0], 8)));
        assert(lanes_at(b16, k) == lanes_at(b15, k).update(0, lanes_at(a15, k)[13]));
        assert(lanes_at(a17, k) == lanes_at(a16, k).update(12, rotl(lanes_at(b16, k)[0], 25)));
        assert(lanes_at(b17, k) == lanes_at(b16, k).update(0, lanes_at(a16, k)[12]));
        assert(lanes_at(a18, k) == lanes_at(a17, k).update(2, rotl(lanes_at(b17, k)[0], 43)));
        assert(lanes_at(b18, k) == lanes_at(b17, k).update(0, lanes_at(a17, k)[2]));
        assert(lanes_at(a19, k) == lanes_at(a18, k).update(20, rotl(lanes_at(b18, k)[0], 62)));
        assert(lanes_at(b19, k) == lanes_at(b18, k).update(0, lanes_at(a18, k)[20]));
        assert(lanes_at(a20, k) == lanes_at(a19, k).update(14, rotl(lanes_at(b19, k)[0], 18)));
        assert(lanes_at(b20, k) == lanes_at(b19, k).update(0, lanes_at(a19, k)[14]));
        assert(lanes_at(a21, k) == lanes_at(a20, k).update(22, rotl(lanes_at(b20, k)[0], 39)));
        assert(lanes_at(b21, k) == lanes_at(b20, k).update(0, lanes_at(a20, k)[22]));
        assert(lanes_at(a22, k) == lanes_at(a21, k).update(9, rotl(lanes_at(b21, k)[0], 61)));
        assert(lanes_at(b22, k) == lanes_at(b21, k).update(0, lanes_at(a21, k)[9]));
        assert(lanes_at(a23, k) == lanes_at(a22, k).update(6, rotl(lanes_at(b22, k)[0], 20)));
        assert(lanes_at(b23, k) == lanes_at(b22, k).update(0, lanes_at(a22, k)[6]));
        assert(lanes_at(a24, k) == lanes_at(a23, k).update(1, rotl(lanes_at(b23, k)[0], 44)));
        assert(lanes_at(b24, k) == lanes_at(b23, k).update(0, lanes_at(a23, k)[1]));
        let fa = lanes_at(a24, k);
        let fb = lanes_at(b24, k);
        let spec = spec_rho_pi(s);
        assert(fb =~= lanes_at(b0, k).update(0, a0[1].lane(k)));
        assert forall|i: int| 0 <= i < fa.len() implies fa[i] == spec[i] by {
            if i == 0 {
                assert(pi_source(0) == 0);
            } else if i == 1 {
                assert(pi_source(1) == 6);
            } else if i == 2 {
                assert(pi_source(2) == 12);
            } else if i == 3 {
                assert(pi_source(3) == 18);
            } else if i == 4 {
                assert(pi_source(4) == 24);
            } else if i == 5 {
                assert(pi_source(5) == 3);
            } else if i == 6 {
                assert(pi_source(6) == 9);
            } else if i == 7 {
                assert(pi_source(7) == 10);
            } else if i == 8 {
                assert(pi_source(8) == 16);
            } else if i == 9 {
                assert(pi_source(9) == 22);
            } else if i == 10 {
                assert(pi_source(10) == 1);
            } else if i == 11 {
                assert(pi_source(11) == 7);
            } else if i == 12 {
                assert(pi_source(12) == 13);
            } else if i == 13 {
                assert(pi_source(13) == 19);
            } else if i == 14 {
                assert(pi_source(14) == 20);
            } else if i == 15 {
                assert(pi_source(15) == 4);
            } else if i == 16 {
                assert(pi_source(16) == 5);
            } else if i == 17 {
                assert(pi_source(17) == 11);
            } else if i == 18 {
                assert(pi_source(18) == 17);
            } else if i == 19 {
                assert(pi_source(19) == 23);
            } else if i == 20 {
                assert(pi_source(20) == 2);
            } else if i == 21 {
                assert(pi_source(21) == 8);
            } else if i == 22 {
                assert(pi_source(22) == 14);
            } else if i == 23 {
                assert(pi_source(23) == 15);
            } else if i == 24 {
                assert(pi_source(24) == 21);
            }
        }
        assert(fa =~= spec);
    }
}

/// `s` with the chi step applied to the row of five lanes that starts at `n`.
pub open spec fn chi_row(s: Seq<u64>, n: int) -> Seq<u64> {
    Seq::new(
        s.len(),
        |i: int|
            if n <= i < n + 5 {
                s[i] ^ (!s[n + (i - n + 1) % 5] & s[n + (i - n + 2) % 5])
            } else {
                s[i]
            },
    )
}

/// The scratch words after one round: the column parities of the state the
/// round started from, with word 0 replaced by lane 1 after theta.
pub open spec fn round_scratch(b: Seq<u64>, a: Seq<u64>) -> Seq<u64> {
    theta_scratch(b, a).update(0, spec_theta(a)[1])
}

/// The scratch words after the chi step on the row that starts at `n`: the
/// five old lanes of that row.
pub open spec fn chi_scratch(b: Seq<u64>, a: Seq<u64>, n: int) -> Seq<u64> {
    Seq::new(b.len(), |i: int| if i < 5 { a[n + i] } else { b[i] })
}

fn chi_<T: Lanes>(a: &mut [T], b: &mut [T], n: usize)
    requires
        n + 5 <= old(a)@.len(),
        old(b)@.len() >= 5,
    ensures
        final(a)@.len() == old(a)@.len(),
        final(b)@.len() == old(b)@.len(),
        forall|k: int|
            0 <= k < T::lane_count() ==> #[trigger] lanes_at(final(a)@, k) == chi_row(
                lanes_at(old(a)@, k),
                n as int,
            ),
        forall|k: int|
            0 <= k < T::lane_count() ==> #[trigger] lanes_at(final(b)@, k) == chi_scratch(
                lanes_at(old(b)@, k),
                lanes_at(old(a)@, k),
                n as int,
            ),
{
    b[0] = a[n];
    b[1] = a[n + 1];
    b[2] = a[n + 2];
    b[3] = a[n + 3];
    b[4] = a[n + 4];
    let v = b[0].xor(b[1].not().and(b[2]));
    a[n] = v;
    let v = b[1].xor(b[2].not().and(b[3]));
    a[n + 1] = v;
    let v = b[2].xor(b[3].not().and(b[4]));
    a[n + 2] = v;
    let v = b[3].xor(b[4].not().and(b[0]));
    a[n + 3] = v;
    let v = b[4].xor(b[0].not().and(b[1]));
    a[n + 4] = v;
    assert forall|k: int| 0 <= k < T::lane_count() implies #[trigger] lanes_at(a@, k) == chi_row(
        lanes_at(old(a)@, k),
        n as int,
    ) by {
        assert(lanes_at(a@, k) =~= chi_row(lanes_at(old(a)@, k), n as int));
    }
    assert forall|k: int| 0 <= k < T::lane_count() implies #[trigger] lanes_at(b@, k) == chi_scratch(
        lanes_at(old(b)@, k),
        lanes_at(old(a)@, k),
        n as int,
    ) by {
        assert(lanes_at(b@, k) =~= chi_scratch(lanes_at(old(b)@, k), lanes_at(old(a)@, k), n as int));
    }
}

/// The chi step on the first 25 words of `a`, lane by lane.
pub fn chi<T: Lanes>(a: &mut [T])
    requires
        old(a)@.len() >= 25,
    ensures
        final(a)@.len() == old(a)@.len(),
        forall|k: int|
            0 <= k < T::lane_count() ==> #[trigger] lanes_at(final(a)@, k) == spec_chi(
                lanes_at(old(a)@, k),
            ),
{
    let z = T::zero();
    let mut b = [z, z, z, z, z];
    let ghost a0 = a@;
    chi_(a, &mut b, 0);
    let ghost a1 = a@;
    chi_(a, &mut b, 5);
    let ghost a2 = a@;
    chi_(a, &mut b, 10);
    let ghost a3 = a@;
    chi_(a, &mut b, 15);
    let ghost a4 = a@;
    chi_(a, &mut b, 20);
    assert forall|k: int| 0 <= k < T::lane_count() implies #[trigger] lanes_at(a@, k) == spec_chi(
        lanes_at(a0, k),
    ) by {
        let s = lanes_at(a0, k);
        assert(lanes_at(a1, k) == chi_row(s, 0));
        assert(lanes_at(a2, k) == chi_row(lanes_at(a1, k), 5));
        assert(lanes_at(a3, k) == chi_row(lanes_at(a2, k), 10));
        assert(lanes_at(a4, k) == chi_row(lanes_at(a3, k), 15));
        assert(lanes_at(a@, k) == chi_row(lanes_at(a4, k), 20));
        assert(lanes_at(a@, k) =~= spec_chi(s));
    }
}

/// The iota step: every lane of word 0 is combined with the round constant `x`.
pub fn iota<T: Lanes>(a: &mut [T], x: u64)
    requires
        old(a)@.len() >= 1,
    ensures
        final(a)@.len() == old(a)@.len(),
        forall|k: int|
            0 <= k < T::lane_count() ==> #[trigger] lanes_at(final(a)@, k) == spec_iota(
                lanes_at(old(a)@, k),
                x,
            ),
{
    let v = a[0].xor_u64(x);
    a[0] = v;
    assert forall|k: int| 0 <= k < T::lane_count() implies #[trigger] lanes_at(a@, k) == spec_iota(
        lanes_at(old(a)@, k),
        x,
    ) by {
        assert(lanes_at(a@, k) =~= spec_iota(lanes_at(old(a)@, k), x));
    }
}

/// One round of Keccak-f[1600] with round constant `x` on the first 25 words
/// of `a`, lane by lane, with `b` as scratch.
pub fn iter<T: Lanes>(a: &mut [T], b: &mut [T], x: u64)
    requires
        old(a)@.len() >= 25,
        old(b)@.len() >= 5,
    ensures
        final(a)@.len() == old(a)@.len(),
        final(b)@.len() == old(b)@.len(),
        forall|k: int|
            0 <= k < T::lane_count() ==> #[trigger] lanes_at(final(a)@, k) == keccak_round(
                lanes_at(old(a)@, k),
                x,
            ),
        forall|k: int|
            0 <= k < T::lane_count() ==> #[trigger] lanes_at(final(b)@, k) == round_scratch(
                lanes_at(old(b)@, k),
                lanes_at(old(a)@, k),
            ),
{
    let ghost a0 = a@;
    let ghost b0 = b@;
    theta(a, b);
    let ghost a1 = a@;
    let ghost b1 = b@;
    rho_pi(a, b);
    let ghost a2 = a@;
    chi(a);
    let ghost a3 = a@;
    iota(a, x);
    assert forall|k: int|
        #![trigger lanes_at(a@, k)]
        #![trigger lanes_at(b@, k)]
        0 <= k < T::lane_count() implies lanes_at(a@, k) == keccak_round(lanes_at(a0, k), x)
            && lanes_at(b@, k) == round_scratch(lanes_at(b0, k), lanes_at(a0, k)) by {
        assert(lanes_at(a1, k) == spec_theta(lanes_at(a0, k)));
        assert(lanes_at(b1, k) == theta_scratch(lanes_at(b0, k), lanes_at(a0, k)));
        assert(lanes_at(a2, k) == spec_rho_pi(lanes_at(a1, k)));
        assert(lanes_at(a3, k) == spec_chi(lanes_at(a2, k)));
        assert(lanes_at(a@, k) == spec_iota(lanes_at(a3, k), x));
        assert(lanes_at(a1, k)[1] == a1[1].lane(k));
        assert(lanes_at(b@, k) =~= round_scratch(lanes_at(b0, k), lanes_at(a0, k)));
    }
}

/// The full Keccak-f[1600] permutation (24 rounds) on the first 25 words of
/// `a`, lane by lane.
pub fn iters<T: Lanes>(a: &mut [T])
    requires
        old(a)@.len() >= 25,
    ensures
        final(a)@.len() == old(a)@.len(),
        forall|k: int|
            0 <= k < T::lane_count() ==> #[trigger] lanes_at(final(a)@, k) == keccak_f(
                lanes_at(old(a)@, k),
            ),
{
    let rcs: [u64; 24] = [
        0x0000000000000001, 0x0000000000008082, 0x800000000000808a, 0x8000000080008000,
        0x000000000000808b, 0x0000000080000001, 0x8000000080008081, 0x8000000000008009,
        0x000000000000008a, 0x0000000000000088, 0x0000000080008009, 0x000000008000000a,
        0x000000008000808b, 0x800000000000008b, 0x8000000000008089, 0x8000000000008003,
        0x8000000000008002, 0x8000000000000080, 0x000000000000800a, 0x800000008000000a,
        0x8000000080008081, 0x8000000000008080, 0x0000000080000001, 0x8000000080008008,
    ];
    assert(rcs@ =~= round_constants());
    let z = T::zero();
    let mut b = [z, z, z, z, z];
    let ghost a0 = a@;
    let mut i: usize = 0;
    while i < 24
        invariant
            0 <= i <= 24,
            rcs@ == round_constants(),
            a@.len() == a0.len(),
            a0.len() >= 25,
            forall|k: int|
                0 <= k < T::lane_count() ==> #[trigger] lanes_at(a@, k) == keccak_rounds(
                    lanes_at(a0, k),
                    i as nat,
                ),
        decreases 24 - i,
    {
        let ghost prev = a@;
        iter(a, &mut b, rcs[i]);
        assert forall|k: int| 0 <= k < T::lane_count() implies #[trigger] lanes_at(a@, k) == keccak_rounds(
            lanes_at(a0, k),
            (i + 1) as nat,
        ) by {
            assert(lanes_at(prev, k) == keccak_rounds(lanes_at(a0, k), i as nat));
        }
        i = i + 1;
    }
}

/// The theta step on 25 lanes, with the parities of columns 0 to 3 computed
/// four at a time in compute slices; the result is that of `theta`.
pub fn theta_avx2(a: &mut [u64], b: &mut [u64; 5])
    requires
        old(a)@.len() >= 25,
    ensures
        final(a)@ == spec_theta(old(a)@),
        final(b)@ == theta_scratch(old(b)@, old(a)@),
{
    let ghost a0 = a@;
    let r0 = SpongeComputeSlice::from_vals([a[3], a[2], a[1], a[0]]);
    let r1 = SpongeComputeSlice::from_vals([a[8], a[7], a[6], a[5]]);
    let r2 = SpongeComputeSlice::from_vals([a[13], a[12], a[11], a[10]]);
    let r3 = SpongeComputeSlice::from_vals([a[18], a[17], a[16], a[15]]);
    let r4 = SpongeComputeSlice::from_vals([a[23], a[22], a[21], a[20]]);
    let c01 = r0.xor(r1);
    let c23 = r2.xor(r3);
    let c03 = c01.xor(c23);
    let c = c03.xor(r4);
    let v = c.vals();
    b[0] = v[3];
    b[1] = v[2];
    b[2] = v[1];
    b[3] = v[0];
    b[4] = a[4] ^ a[9] ^ a[14] ^ a[19] ^ a[24];
    assert forall|x: int| 0 <= x < 4 implies #[trigger] b@[x] == column_parity(a0, x) by {
        let p = a0[x];
        let q = a0[x + 5];
        let r = a0[x + 10];
        let t = a0[x + 15];
        let u = a0[x + 20];
        let k = 3 - x;
        assert(c01.lane(k) == r0.lane(k) ^ r1.lane(k));
        assert(c23.lane(k) == r2.lane(k) ^ r3.lane(k));
        assert(c03.lane(k) == c01.lane(k) ^ c23.lane(k));
        assert(c.lane(k) == c03.lane(k) ^ r4.lane(k));
        assert(r0.lane(k) == p && r1.lane(k) == q && r2.lane(k) == r && r3.lane(k) == t && r4.lane(k) == u);
        assert(b@[x] == c.lane(k));
        assert(((p ^ q) ^ (r ^ t)) ^ u == p ^ q ^ r ^ t ^ u) by (bit_vector);
    }
    assert(b@ =~= theta_scratch(old(b)@, a0));
    theta_(a, b, 4, 1, 0);
    let ghost a1 = a@;
    theta_(a, b, 0, 2, 1);
    let ghost a2 = a@;
    theta_(a, b, 1, 3, 2);
    let ghost a3 = a@;
    theta_(a, b, 2, 4, 3);
    let ghost a4 = a@;
    theta_(a, b, 3, 0, 4);
    proof {
        assert(lanes_at(a0, 0) =~= a0);
        assert(lanes_at(a1, 0) =~= a1);
        assert(lanes_at(a2, 0) =~= a2);
        assert(lanes_at(a3, 0) =~= a3);
        assert(lanes_at(a4, 0) =~= a4);
        assert(lanes_at(a@, 0) =~= a@);
        assert(a@ =~= spec_theta(a0));
    }
}

} // verus!
