use vstd::prelude::*;

verus! {

/// The ASCII decimal digits of `x`, most significant first, without leading
/// zeros; for `0` there are no digits at all.
pub open spec fn decimal(x: nat) -> Seq<u8>
    decreases x,
{
    if x == 0 {
        seq![]
    } else {
        decimal(x / 10).push((x % 10 + 48) as u8)
    }
}

/// The number that a sequence of ASCII decimal digits denotes.
pub open spec fn digits_value(s: Seq<u8>) -> nat
    decreases s.len(),
{
    if s.len() == 0 {
        0
    } else {
        digits_value(s.drop_last()) * 10 + (s.last() - 48) as nat
    }
}

/// `10` to the power `n`.
pub open spec fn pow10(n: nat) -> nat
    decreases n,
{
    if n == 0 {
        1
    } else {
        10 * pow10((n - 1) as nat)
    }
}

/// A number below `10^n` has at most `n` decimal digits.
pub proof fn lemma_decimal_len(x: nat, n: nat)
    requires
        x < pow10(n),
    ensures
        decimal(x).len() <= n,
    decreases x,
{
    if x > 0 {
        assert(n >= 1);
        assert(x / 10 < pow10((n - 1) as nat)) by (nonlinear_arith)
            requires
                x < pow10(n),
                pow10(n) == 10 * pow10((n - 1) as nat),
        ;
        lemma_decimal_len(x / 10, (n - 1) as nat);
    }
}

/// Every `u64` has at most 20 decimal digits.
pub proof fn lemma_decimal_len_u64(x: u64)
    ensures
        decimal(x as nat).len() <= 20,
{
    reveal_with_fuel(pow10, 21);
    lemma_decimal_len(x as nat, 20);
}

/// The two ASCII digits of every number below 100, in order: `00`, `01`,
/// ..., `99`.
fn digit_pairs() -> (lut: [u8; 200])
    ensures
        forall|d: int|
            0 <= d < 100 ==> #[trigger] lut@[2 * d] == d / 10 + 48 && lut@[2 * d + 1] == d % 10 + 48,
{
    let lut: [u8; 200] = [
        48, 48, 48, 49, 48, 50, 48, 51, 48, 52, 48, 53, 48, 54, 48, 55, 48, 56, 48, 57,
        49, 48, 49, 49, 49, 50, 49, 51, 49, 52, 49, 53, 49, 54, 49, 55, 49, 56, 49, 57,
        50, 48, 50, 49, 50, 50, 50, 51, 50, 52, 50, 53, 50, 54, 50, 55, 50, 56, 50, 57,
        51, 48, 51, 49, 51, 50, 51, 51, 51, 52, 51, 53, 51, 54, 51, 55, 51, 56, 51, 57,
        52, 48, 52, 49, 52, 50, 52, 51, 52, 52, 52, 53, 52, 54, 52, 55, 52, 56, 52, 57,
        53, 48, 53, 49, 53, 50, 53, 51, 53, 52, 53, 53, 53, 54, 53, 55, 53, 56, 53, 57,
        54, 48, 54, 49, 54, 50, 54, 51, 54, 52, 54, 53, 54, 54, 54, 55, 54, 56, 54, 57,
        55, 48, 55, 49, 55, 50, 55, 51, 55, 52, 55, 53, 55, 54, 55, 55, 55, 56, 55, 57,
        56, 48, 56, 49, 56, 50, 56, 51, 56, 52, 56, 53, 56, 54, 56, 55, 56, 56, 56, 57,
        57, 48, 57, 49, 57, 50, 57, 51, 57, 52, 57, 53, 57, 54, 57, 55, 57, 56, 57, 57,
    ];
    assert forall|d: int| 0 <= d < 100 implies #[trigger] lut@[2 * d] == d / 10 + 48 && lut@[2 * d + 1]
        == d % 10 + 48 by {
    }
    lut
}

proof fn lemma_digit_pair(lut: Seq<u8>, d: int)
    requires
        0 <= d < 100,
        forall|e: int|
            0 <= e < 100 ==> #[trigger] lut[2 * e] == e / 10 + 48 && lut[2 * e + 1] == e % 10 + 48,
    ensures
        lut[2 * d] == d / 10 + 48,
        lut[2 * d + 1] == d % 10 + 48,
{
    assert(lut[2 * d] == d / 10 + 48);
}

/// The last two digits of a number of at least two digits.
proof fn lemma_decimal_last_two(x: nat)
    requires
        x >= 10,
    ensures
        decimal(x) == decimal(x / 100) + seq![((x % 100) / 10 + 48) as u8, (x % 10 + 48) as u8],
{
    assert(x / 10 / 10 == x / 100);
    assert((x / 10) % 10 == (x % 100) / 10);
    assert(decimal(x / 10) == decimal(x / 100).push(((x / 10) % 10 + 48) as u8));
    assert(decimal(x) == decimal(x / 10).push((x % 10 + 48) as u8));
    assert(decimal(x) =~= decimal(x / 100) + seq![((x % 100) / 10 + 48) as u8, (x % 10 + 48) as u8]);
}

/// The last four digits of a number of at least four digits.
proof fn lemma_decimal_last_four(x: nat)
    requires
        x >= 1000,
    ensures
        decimal(x) == decimal(x / 10000) + seq![
            ((x % 10000) / 100 / 10 + 48) as u8,
            ((x % 10000) / 100 % 10 + 48) as u8,
            ((x % 10000) % 100 / 10 + 48) as u8,
            ((x % 10000) % 10 + 48) as u8,
        ],
{
    lemma_decimal_last_two(x);
    lemma_decimal_last_two(x / 100);
    let r = x % 10000;
    assert(x / 100 / 100 == x / 10000);
    assert((x / 100) % 100 == r / 100);
    assert(x % 100 == r % 100);
    assert(x % 10 == r % 10);
    assert(decimal(x) =~= decimal(x / 10000) + seq![
        (r / 100 / 10 + 48) as u8,
        (r / 100 % 10 + 48) as u8,
        (r % 100 / 10 + 48) as u8,
        (r % 10 + 48) as u8,
    ]);
}

/// Copies the 32-byte window that holds `buf[curr..32]` followed by zeros
/// into the start of `out`; the bytes of `out` from 32 on are left as they were.
fn copy_window(out: &mut [u8], buf: &[u8; 32], curr: usize)
    requires
        curr <= 32,
        old(out)@.len() >= 32,
    ensures
        final(out)@ == buf@.subrange(curr as int, 32) + Seq::new(curr as nat, |i: int| 0u8)
            + old(out)@.subrange(32, old(out)@.len() as int),
{
    let len = 32 - curr;
    let mut i: usize = 0;
    while i < 32
        invariant
            i <= 32,
            curr <= 32,
            len == 32 - curr,
            out@.len() == old(out)@.len(),
            out@.len() >= 32,
            forall|j: int| 0 <= j < i ==> #[trigger] out@[j] == if j < len { buf@[curr + j] } else { 0u8 },
            forall|j: int| i <= j < out@.len() ==> #[trigger] out@[j] == old(out)@[j],
        decreases 32 - i,
    {
        if i < len {
            out[i] = buf[curr + i];
        } else {
            out[i] = 0;
        }
        i = i + 1;
    }
    assert(out@ =~= buf@.subrange(curr as int, 32) + Seq::new(curr as nat, |i: int| 0u8)
        + old(out)@.subrange(32, old(out)@.len() as int));
}

/// Writes a 32-byte window at the start of `out`: the decimal digits of `x`,
/// then zeros; returns the number of digits. The bytes of `out` from 32 on
/// are left as they were. The digits are produced four, then two at a time
/// from a table of digit pairs.
#[verifier::rlimit(40)]
pub fn write_decimal(out: &mut [u8], x: u64) -> (len: usize)
    requires
        old(out)@.len() >= 32,
    ensures
        len == decimal(x as nat).len(),
        final(out)@ == decimal(x as nat) + Seq::new((32 - len) as nat, |i: int| 0u8)
            + old(out)@.subrange(32, old(out)@.len() as int),
{
    if x == 0 {
        let zeros = [0u8; 32];
        copy_window(out, &zeros, 32);
        assert(zeros@.subrange(32, 32) =~= decimal(0));
        return 0;
    }
    let lut = digit_pairs();
    let mut buf = [0u8; 32];
    let mut curr: usize = 32;
    let mut v: u64 = x;
    proof {
        lemma_decimal_len_u64(x);
    }
    assert(buf@.subrange(32, 32) =~= Seq::<u8>::empty());
    while v >= 10000
        invariant
            0 < v,
            curr <= 32,
            decimal(v as nat).len() + (32 - curr) == decimal(x as nat).len(),
            decimal(x as nat).len() <= 20,
            decimal(x as nat) == decimal(v as nat) + buf@.subrange(curr as int, 32),
            forall|d: int|
                0 <= d < 100 ==> #[trigger] lut@[2 * d] == d / 10 + 48 && lut@[2 * d + 1] == d % 10 + 48,
        decreases v,
    {
        proof {
            lemma_decimal_last_four(v as nat);
            lemma_decimal_len_u64(v / 10000);
        }
        let rem = (v % 10000) as usize;
        let ghost old_v = v;
        v = v / 10000;
        let d1 = (rem / 100) * 2;
        let d2 = (rem % 100) * 2;
        let ghost tail = buf@.subrange(curr as int, 32);
        curr = curr - 4;
        buf[curr] = lut[d1];
        buf[curr + 1] = lut[d1 + 1];
        buf[curr + 2] = lut[d2];
        buf[curr + 3] = lut[d2 + 1];
        let ghost four = seq![lut@[d1 as int], lut@[d1 + 1], lut@[d2 as int], lut@[d2 + 1]];
        let ghost q1 = (rem / 100) as int;
        let ghost q2 = (rem % 100) as int;
        proof {
            lemma_digit_pair(lut@, q1);
            lemma_digit_pair(lut@, q2);
        }
        assert(buf@.subrange(curr as int, 32) =~= four + tail);
        assert(decimal(old_v as nat) == decimal(v as nat) + four);
        assert(decimal(v as nat) + four + tail =~= decimal(v as nat) + (four + tail));
    }
    if v >= 100 {
        proof {
            lemma_decimal_last_two(v as nat);
        }
        let ghost old_v = v;
        let d1 = ((v % 100) as usize) * 2;
        v = v / 100;
        assert(v < 100);
        let ghost tail = buf@.subrange(curr as int, 32);
        curr = curr - 2;
        buf[curr] = lut[d1];
        buf[curr + 1] = lut[d1 + 1];
        let ghost two = seq![lut@[d1 as int], lut@[d1 + 1]];
        proof {
            lemma_digit_pair(lut@, (old_v % 100) as int);
        }
        assert(buf@.subrange(curr as int, 32) =~= two + tail);
        assert(decimal(old_v as nat) == decimal(v as nat) + two);
        assert(decimal(v as nat) + two + tail =~= decimal(v as nat) + (two + tail));
    }
    assert(0 < v < 100);
    let ghost tail = buf@.subrange(curr as int, 32);
    if v < 10 {
        assert(decimal(v as nat) == decimal(0).push((v + 48) as u8));
        curr = curr - 1;
        buf[curr] = (v as u8) + 48;
        assert(buf@.subrange(curr as int, 32) =~= decimal(v as nat) + tail);
    } else {
        proof {
            lemma_decimal_last_two(v as nat);
        }
        let d1 = (v as usize) * 2;
        let ghost q = v as int;
        proof {
            lemma_digit_pair(lut@, q);
        }
        assert(v / 100 == 0);
        assert(decimal(v as nat / 100) =~= Seq::<u8>::empty());
        curr = curr - 2;
        buf[curr] = lut[d1];
        buf[curr + 1] = lut[d1 + 1];
        assert(buf@.subrange(curr as int, 32) =~= decimal(v as nat) + tail);
    }
    assert(decimal(x as nat) =~= buf@.subrange(curr as int, 32));
    let len = 32 - curr;
    proof {
        lemma_decimal_len_u64(x);
    }
    copy_window(out, &buf, curr);
    len
}

/// The digits written for `x` denote `x`, every one of them is an ASCII
/// digit, there are none only for `0`, and the first one is never `0`.
pub proof fn lemma_decimal_round_trip(x: nat)
    ensures
        digits_value(decimal(x)) == x,
        forall|i: int| 0 <= i < decimal(x).len() ==> 48 <= #[trigger] decimal(x)[i] <= 57,
        decimal(x).len() == 0 <==> x == 0,
        decimal(x).len() > 0 ==> decimal(x)[0] != 48,
    decreases x,
{
    let s = decimal(x);
    if x > 0 {
        lemma_decimal_round_trip(x / 10);
        assert(s.drop_last() =~= decimal(x / 10));
        assert(digits_value(s) == digits_value(decimal(x / 10)) * 10 + x % 10);
        assert(x == (x / 10) * 10 + x % 10);
        if x < 10 {
            assert(decimal(x / 10).len() == 0);
            assert(s[0] == (x + 48) as u8);
        } else {
            assert(s[0] == decimal(x / 10)[0]);
        }
    }
}

} // verus!
