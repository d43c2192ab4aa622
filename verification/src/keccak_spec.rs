use vstd::prelude::*;

verus! {

// The Keccak-f[1600] permutation on a state of 25 lanes of 64 bits; lane
// `x + 5 * y` is the lane at column `x` and row `y`. A state sequence may be
// longer than 25; the words after the first 25 are left as they are.

/// Rotation of the 64 bits of `v` to the left by `s` places (`s < 64`).
pub open spec fn rotl(v: u64, s: u64) -> u64
    recommends
        s < 64,
{
    if s == 0 {
        v
    } else {
        (v << s) | (v >> ((64 - s) as u64))
    }
}

/// Parity of column `x`: the exclusive or of the five lanes of that column.
pub open spec fn column_parity(a: Seq<u64>, x: int) -> u64 {
    a[x] ^ a[x + 5] ^ a[x + 10] ^ a[x + 15] ^ a[x + 20]
}

/// The value that theta folds into every lane of column `x`.
pub open spec fn theta_effect(a: Seq<u64>, x: int) -> u64 {
    column_parity(a, (x + 4) % 5) ^ rotl(column_parity(a, (x + 1) % 5), 1)
}

/// The theta step.
pub open spec fn spec_theta(a: Seq<u64>) -> Seq<u64> {
    Seq::new(a.len(), |i: int| if i < 25 { a[i] ^ theta_effect(a, i % 5) } else { a[i] })
}

/// The rotation offsets of the rho step, by lane index.
pub open spec fn rho_offsets() -> Seq<u64> {
    seq![
        0, 1, 62, 28, 27,
        36, 44, 6, 55, 20,
        3, 10, 43, 25, 39,
        41, 45, 15, 21, 8,
        18, 2, 61, 56, 14,
    ]
}

/// The lane that the pi step moves to lane `i`: lane (x, y) receives lane (x + 3y, x).
pub open spec fn pi_source(i: int) -> int {
    (i % 5 + 3 * (i / 5)) % 5 + 5 * (i % 5)
}

/// The rho step followed by the pi step.
pub open spec fn spec_rho_pi(a: Seq<u64>) -> Seq<u64> {
    Seq::new(
        a.len(),
        |i: int|
            if i < 25 {
                rotl(a[pi_source(i)], rho_offsets()[pi_source(i)])
            } else {
                a[i]
            },
    )
}

/// The chi step: each lane is combined with the next two lanes of its row.
pub open spec fn spec_chi(a: Seq<u64>) -> Seq<u64> {
    Seq::new(
        a.len(),
        |i: int|
            if i < 25 {
                a[i] ^ (!a[i - i % 5 + (i % 5 + 1) % 5] & a[i - i % 5 + (i % 5 + 2) % 5])
            } else {
                a[i]
            },
    )
}

/// The iota step with round constant `rc`.
pub open spec fn spec_iota(a: Seq<u64>, rc: u64) -> Seq<u64> {
    a.update(0, a[0] ^ rc)
}

/// One round of Keccak-f[1600].
pub open spec fn keccak_round(a: Seq<u64>, rc: u64) -> Seq<u64> {
    spec_iota(spec_chi(spec_rho_pi(spec_theta(a))), rc)
}

/// The round constants of the 24 rounds.
pub open spec fn round_constants() -> Seq<u64> {
    seq![
        0x0000000000000001u64, 0x0000000000008082u64, 0x800000000000808au64,
        0x8000000080008000u64, 0x000000000000808bu64, 0x0000000080000001u64,
        0x8000000080008081u64, 0x8000000000008009u64, 0x000000000000008au64,
        0x0000000000000088u64, 0x0000000080008009u64, 0x000000008000000au64,
        0x000000008000808bu64, 0x800000000000008bu64, 0x8000000000008089u64,
        0x8000000000008003u64, 0x8000000000008002u64, 0x8000000000000080u64,
        0x000000000000800au64, 0x800000008000000au64, 0x8000000080008081u64,
        0x8000000000008080u64, 0x0000000080000001u64, 0x8000000080008008u64,
    ]
}

/// The first `n` rounds of Keccak-f[1600] applied to `a`.
pub open spec fn keccak_rounds(a: Seq<u64>, n: nat) -> Seq<u64>
    decreases n,
{
    if n == 0 {
        a
    } else {
        keccak_round(keccak_rounds(a, (n - 1) as nat), round_constants()[n - 1])
    }
}

/// The Keccak-f[1600] permutation: all 24 rounds.
pub open spec fn keccak_f(a: Seq<u64>) -> Seq<u64> {
    keccak_rounds(a, 24)
}

/// Rotation moves every bit: bit `i` of the result is bit `i - s` (modulo 64)
/// of `v`.
pub proof fn lemma_rotl_moves_bits(v: u64, s: u64, i: u64)
    requires
        s < 64,
        i < 64,
    ensures
        (rotl(v, s) >> i) & 1 == (v >> ((i + 64 - s) % 64) as u64) & 1,
{
    if s == 0 {
        assert((v >> i) & 1 == (v >> ((i + 64 - 0) % 64) as u64) & 1) by (bit_vector)
            requires
                i < 64,
        ;
    } else {
        assert((((v << s) | (v >> ((64 - s) as u64))) >> i) & 1 == (v >> ((i + 64 - s) % 64) as u64)
            & 1) by (bit_vector)
            requires
                0 < s < 64,
                i < 64,
        ;
    }
}

/// Rotating by `s` and then by `64 - s` gives the word back.
pub proof fn lemma_rotl_inverse(v: u64, s: u64)
    requires
        0 < s < 64,
    ensures
        rotl(rotl(v, s), (64 - s) as u64) == v,
{
    assert((((v << s) | (v >> ((64 - s) as u64))) << ((64 - s) as u64)) | (((v << s) | (v >> ((64
        - s) as u64))) >> ((64 - (64 - s)) as u64)) == v) by (bit_vector)
        requires
            0 < s < 64,
    ;
}

/// The rounds keep the number of lanes.
pub proof fn lemma_keccak_rounds_len(a: Seq<u64>, n: nat)
    requires
        a.len() >= 25,
    ensures
        keccak_rounds(a, n).len() == a.len(),
    decreases n,
{
    if n > 0 {
        lemma_keccak_rounds_len(a, (n - 1) as nat);
    }
}

/// The lane-by-lane exclusive or of two states.
pub open spec fn xor_states(a: Seq<u64>, b: Seq<u64>) -> Seq<u64> {
    Seq::new(a.len(), |i: int| a[i] ^ b[i])
}

proof fn lemma_rotl1_linear(c1: u64, c2: u64)
    ensures
        rotl(c1 ^ c2, 1) == rotl(c1, 1) ^ rotl(c2, 1),
{
    assert(((c1 ^ c2) << 1u64) | ((c1 ^ c2) >> 63u64) == ((c1 << 1u64) | (c1 >> 63u64)) ^ ((c2
        << 1u64) | (c2 >> 63u64))) by (bit_vector);
}

/// Theta is linear over exclusive or: the theta of the exclusive or of two
/// states is the exclusive or of their thetas, and so are the column parities.
pub proof fn lemma_theta_linear(a1: Seq<u64>, a2: Seq<u64>)
    requires
        a1.len() == a2.len(),
        a1.len() >= 25,
    ensures
        spec_theta(xor_states(a1, a2)) == xor_states(spec_theta(a1), spec_theta(a2)),
        forall|x: int|
            0 <= x < 5 ==> #[trigger] column_parity(xor_states(a1, a2), x) == column_parity(a1, x)
                ^ column_parity(a2, x),
{
    let a3 = xor_states(a1, a2);
    assert forall|x: int| 0 <= x < 5 implies #[trigger] column_parity(a3, x) == column_parity(a1, x)
        ^ column_parity(a2, x) by {
        let (p0, p1, p2, p3, p4) = (a1[x], a1[x + 5], a1[x + 10], a1[x + 15], a1[x + 20]);
        let (q0, q1, q2, q3, q4) = (a2[x], a2[x + 5], a2[x + 10], a2[x + 15], a2[x + 20]);
        assert((p0 ^ q0) ^ (p1 ^ q1) ^ (p2 ^ q2) ^ (p3 ^ q3) ^ (p4 ^ q4) == (p0 ^ p1 ^ p2 ^ p3 ^ p4)
            ^ (q0 ^ q1 ^ q2 ^ q3 ^ q4)) by (bit_vector);
    }
    assert forall|i: int| 0 <= i < a1.len() implies #[trigger] spec_theta(a3)[i] == xor_states(
        spec_theta(a1),
        spec_theta(a2),
    )[i] by {
        if i < 25 {
            let x = i % 5;
            let (l1, l2) = (column_parity(a1, (x + 4) % 5), column_parity(a2, (x + 4) % 5));
            let (r1, r2) = (column_parity(a1, (x + 1) % 5), column_parity(a2, (x + 1) % 5));
            lemma_rotl1_linear(r1, r2);
            let (s1, s2) = (rotl(r1, 1), rotl(r2, 1));
            let (v1, v2) = (a1[i], a2[i]);
            assert((v1 ^ v2) ^ ((l1 ^ l2) ^ (s1 ^ s2)) == (v1 ^ (l1 ^ s1)) ^ (v2 ^ (l2 ^ s2)))
                by (bit_vector);
        }
    }
    assert(spec_theta(a3) =~= xor_states(spec_theta(a1), spec_theta(a2)));
}

proof fn lemma_chi_row_injective(
    x0: u64,
    x1: u64,
    x2: u64,
    x3: u64,
    x4: u64,
    y0: u64,
    y1: u64,
    y2: u64,
    y3: u64,
    y4: u64,
)
    requires
        x0 ^ (!x1 & x2) == y0 ^ (!y1 & y2),
        x1 ^ (!x2 & x3) == y1 ^ (!y2 & y3),
        x2 ^ (!x3 & x4) == y2 ^ (!y3 & y4),
        x3 ^ (!x4 & x0) == y3 ^ (!y4 & y0),
        x4 ^ (!x0 & x1) == y4 ^ (!y0 & y1),
    ensures
        x0 == y0 && x1 == y1 && x2 == y2 && x3 == y3 && x4 == y4,
{
    assert(x0 == y0 && x1 == y1 && x2 == y2 && x3 == y3 && x4 == y4) by (bit_vector)
        requires
            x0 ^ (!x1 & x2) == y0 ^ (!y1 & y2),
            x1 ^ (!x2 & x3) == y1 ^ (!y2 & y3),
            x2 ^ (!x3 & x4) == y2 ^ (!y3 & y4),
            x3 ^ (!x4 & x0) == y3 ^ (!y4 & y0),
            x4 ^ (!x0 & x1) == y4 ^ (!y0 & y1),
    ;
}

/// Chi is injective on the 25 lanes of the state: two states with the same
/// chi have the same 25 lanes.
pub proof fn lemma_chi_injective(a1: Seq<u64>, a2: Seq<u64>)
    requires
        a1.len() >= 25,
        a2.len() >= 25,
        spec_chi(a1).subrange(0, 25) == spec_chi(a2).subrange(0, 25),
    ensures
        a1.subrange(0, 25) == a2.subrange(0, 25),
{
    let c1 = spec_chi(a1);
    let c2 = spec_chi(a2);
    assert forall|i: int| 0 <= i < 25 implies #[trigger] a1[i] == a2[i] by {
        let n = i - i % 5;
        assert(c1.subrange(0, 25)[n] == c2.subrange(0, 25)[n]);
        assert(c1.subrange(0, 25)[n + 1] == c2.subrange(0, 25)[n + 1]);
        assert(c1.subrange(0, 25)[n + 2] == c2.subrange(0, 25)[n + 2]);
        assert(c1.subrange(0, 25)[n + 3] == c2.subrange(0, 25)[n + 3]);
        assert(c1.subrange(0, 25)[n + 4] == c2.subrange(0, 25)[n + 4]);
        lemma_chi_row_injective(
            a1[n], a1[n + 1], a1[n + 2], a1[n + 3], a1[n + 4],
            a2[n], a2[n + 1], a2[n + 2], a2[n + 3], a2[n + 4],
        );
    }
    assert(a1.subrange(0, 25) =~= a2.subrange(0, 25));
}

} // verus!
