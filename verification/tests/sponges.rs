use function_selector_miner::sponges_avx::{SpongeComputeSlice, SpongesAvx};
use function_selector_miner::{
    chi, iota, iter, iters, rho_pi, rotate_left, theta, theta_avx2, SmallString, Sponge,
};

#[test]
fn test_theta_equivalence() {
    let mut a = [0u64; 25];
    let mut b = [0u64; 5];

    for i in 0..25 {
        a[i] = i as u64;
    }
    for i in 0..5 {
        b[i] = (i * 5) as u64;
    }

    let mut a_theta = a;
    let mut b_theta = b;
    theta(&mut a_theta, &mut b_theta);

    let mut a_theta_avx2 = a;
    let mut b_theta_avx2 = b;
    theta_avx2(&mut a_theta_avx2, &mut b_theta_avx2);

    assert_eq!(a_theta, a_theta_avx2);
    assert_eq!(b_theta, b_theta_avx2);
}

#[test]
fn test_shift() {
    let v0: u64 = 0xFFFFFFFFFFFFFFFF;
    let v1: u64 = 0xFFFFFFFFFFFFFFFF;
    let v2: u64 = 0xFFFFFFFFFFFFFFFF;
    let v3: u64 = 0xFFFFFFFFFFFFFFFF;

    let v = SpongeComputeSlice::from_vals([v3, v2, v1, v0]);

    let v = v << 1;

    let vals = v.vals();
    assert_eq!(vals[0], 0xFFFFFFFFFFFFFFFE);
    assert_eq!(vals[1], 0xFFFFFFFFFFFFFFFE);
    assert_eq!(vals[2], 0xFFFFFFFFFFFFFFFE);
    assert_eq!(vals[3], 0xFFFFFFFFFFFFFFFE);

    println!("{:?}", v);
}

#[test]
fn sponges_avx_equivalent() {
    let mut s = Sponge::default();

    let function_name = SmallString::new("foo");
    let function_params = SmallString::new("foo");
    s.fill(&function_name, 0, &function_params);
    let mut s_avx = SpongesAvx::new(&function_name, 0, &function_params);
    assert_eq!(s.uint64s[0], s_avx.compute_slices[0].vals()[0]);

    let b = &mut [0u64; 5];
    let b_avx = &mut [SpongeComputeSlice::default(); 5];
    assert_eq!(b[0], b_avx[0].vals()[0]);

    const X1: u64 = 0x0000000000000001;
    const X2: u64 = 0x0000000000008082;

    iter(&mut s.uint64s, b, X1);
    iter(&mut s_avx.compute_slices, b_avx, X1);
    assert_eq!(b[0], b_avx[0].vals()[0]);

    iter(&mut s.uint64s, b, X2);
    iter(&mut s_avx.compute_slices, b_avx, X2);
    assert_eq!(b[0], b_avx[0].vals()[0]);

    let c0 = s.compute_selectors();
    let c1 = s_avx.compute_selectors();
    println!("c0: {:X?}", c0);
    println!("c1: {:X?}", c1);
    assert_eq!(c0, c1[0], "compute_selectors() failed");
    assert_eq!(c0, 0x67E41DE3)
}

#[test]
fn sponges_avx_equivalent_fill() {
    let mut s = Sponge::default();
    let mut s_avx = SpongesAvx::default();

    let function_name = SmallString::new("someFunction");
    let function_params = SmallString::new("(uint256,address)");
    assert_eq!(s.chars(), s_avx.sponges[0].chars());

    s.fill(&function_name, 0, &function_params);
    s_avx.fill(&function_name, 0, &function_params);
    assert_eq!(s.chars(), s_avx.sponges[0].chars());

    let b = &mut [0u64; 5];
    let b_avx = &mut [SpongeComputeSlice::default(); 5];
    assert_eq!(b[0], b_avx[0].vals()[0]);

    const X1: u64 = 0x0000000000000001;
    const X2: u64 = 0x0000000000008082;

    s.iter(b, X1);
    s_avx.iter(b_avx, X1);
    assert_eq!(b[0], b_avx[0].vals()[0]);

    s.iter(b, X2);
    s_avx.iter(b_avx, X2);
    assert_eq!(b[0], b_avx[0].vals()[0]);

    let c0 = s.compute_selectors();
    let c1 = s_avx.compute_selectors();
    assert_eq!(c0, c1[0], "compute_selectors() failed");
}

#[test]
fn sponges_avx_ops() {
    let mut s = SpongeComputeSlice::default();
    println!("s0: {s:X?}");

    s ^= u64::MAX;
    println!("s0: {s:X?}");
    assert_eq!(s.vals()[0], u64::MAX);

    s = s << 4;
    println!("s0: {s:X?}");
    let expected = u64::MAX << 4;
    assert_eq!(s.vals()[0], expected);

    s = !s;
    println!("s0: {s:X?}");
    let expected = !(u64::MAX << 4);
    assert_eq!(s.vals()[0], expected);

    let t = rotate_left(s, 4);
    println!("t: {t:X?}");
    let expected = rotate_left(expected, 4);
    assert_eq!(t.vals()[0], expected);
}

#[test]
fn slice_ops_act_lane_by_lane() {
    let a = SpongeComputeSlice::from_vals([1, 2, 3, 0xF0]);
    let b = SpongeComputeSlice::from_vals([3, 3, 3, 0x0F]);
    assert_eq!((a ^ b).vals(), [2, 1, 0, 0xFF]);
    assert_eq!((a & b).vals(), [1, 2, 3, 0]);
    assert_eq!((a | b).vals(), [3, 3, 3, 0xFF]);
    assert_eq!((a >> 1).vals(), [0, 1, 1, 0x78]);
    assert_eq!((a << 64).vals(), [0, 0, 0, 0]);
    assert_eq!((a >> 70).vals(), [0, 0, 0, 0]);
    let mut c = a;
    c ^= b;
    assert_eq!(c.vals(), [2, 1, 0, 0xFF]);
}

#[test]
fn rotation_is_a_rotation() {
    let v: u64 = 0x8000_0000_0000_0001;
    assert_eq!(rotate_left(v, 1), 0x0000_0000_0000_0003);
    assert_eq!(rotate_left(v, 63), 0xC000_0000_0000_0000);
    assert_eq!(rotate_left(rotate_left(0x1234_5678_9abc_def0u64, 12), 52), 0x1234_5678_9abc_def0);
    for s in 1..64u32 {
        assert_eq!(rotate_left(0xdead_beef_0bad_f00du64, s), 0xdead_beef_0bad_f00du64.rotate_left(s));
    }
}

#[test]
fn permutation_of_zero_state() {
    let mut a = [0u64; 25];
    iters(&mut a);
    assert_eq!(a[0], 0xF1258F7940E1DDE7);
    let mut s = Sponge::default();
    assert_eq!(s.compute_selectors(), 0x40E1DDE7);
}

#[test]
fn round_steps_compose_to_iter() {
    let mut a = [0u64; 25];
    for i in 0..25 {
        a[i] = (i as u64).wrapping_mul(0x9E37_79B9_7F4A_7C15);
    }
    let mut by_steps = a;
    let mut b1 = [0u64; 5];
    theta(&mut by_steps, &mut b1);
    rho_pi(&mut by_steps, &mut b1);
    chi(&mut by_steps);
    iota(&mut by_steps, 0x8082);
    let mut by_round = a;
    let mut b2 = [0u64; 5];
    iter(&mut by_round, &mut b2, 0x8082);
    assert_eq!(by_steps, by_round);
    assert_eq!(b1, b2);
}

#[test]
fn fill_lays_out_the_padded_block() {
    let name = SmallString::new("someFunction");
    let params = SmallString::new("(uint256,address)");
    let mut s = Sponge::default();
    s.fill(&name, 42, &params);
    let chars = s.chars();
    let msg = b"someFunction42(uint256,address)";
    assert_eq!(&chars[..msg.len()], &msg[..]);
    assert_eq!(chars[msg.len()], 0x01);
    assert_eq!(chars[135], 0x80);
    for i in msg.len() + 1..200 {
        if i != 135 {
            assert_eq!(chars[i], 0);
        }
    }
    for i in 0..25 {
        let mut lane = [0u8; 8];
        lane.copy_from_slice(&chars[8 * i..8 * i + 8]);
        assert_eq!(s.uint64s[i], u64::from_le_bytes(lane));
    }
}

#[test]
fn fill_and_get_name_returns_the_message() {
    let name = SmallString::new("foo");
    let params = SmallString::new("foo");
    let mut s = Sponge::default();
    assert_eq!(s.fill_and_get_name(&name, 42, &params), "foo42foo");
    assert_eq!(s.chars()[8], 0x00);
    assert_eq!(s.chars()[135], 0x80);
    assert_eq!(s.fill_and_get_name(&name, 0, &params), "foofoo");
}

#[test]
fn batch_lanes_match_single_sponges() {
    let name = SmallString::new("someFunction");
    let params = SmallString::new("(uint256,address)");
    let mut batch = SpongesAvx::new(&name, 7, &params);
    let selectors = batch.compute_selectors();
    for k in 0..4u64 {
        let mut s = Sponge::default();
        s.fill(&name, 7 + k, &params);
        assert_eq!(s.compute_selectors(), selectors[k as usize]);
    }
}

#[test]
fn small_string_holds_bytes() {
    let s = SmallString::new("héllo");
    assert_eq!(s.length, 6);
    assert_eq!(&s.data[..6], "héllo".as_bytes());
    assert!(s.data[6..].iter().all(|&b| b == 0));
    let e = SmallString::new("");
    assert_eq!(e.length, 0);
}

#[test]
fn theta_is_linear_over_xor() {
    let mut a1 = [0u64; 25];
    let mut a2 = [0u64; 25];
    for i in 0..25 {
        a1[i] = (i as u64 + 1).wrapping_mul(0x9E37_79B9_7F4A_7C15);
        a2[i] = (i as u64 + 7).wrapping_mul(0xC2B2_AE3D_27D4_EB4F);
    }
    let mut a3 = [0u64; 25];
    for i in 0..25 {
        a3[i] = a1[i] ^ a2[i];
    }
    let (mut b1, mut b2, mut b3) = ([1u64; 5], [2u64; 5], [3u64; 5]);
    theta(&mut a1, &mut b1);
    theta(&mut a2, &mut b2);
    theta(&mut a3, &mut b3);
    for i in 0..25 {
        assert_eq!(a3[i], a1[i] ^ a2[i]);
    }
    for x in 0..5 {
        assert_eq!(b3[x], b1[x] ^ b2[x]);
    }
}

#[test]
fn chi_separates_states() {
    let mut a1 = [0u64; 25];
    let mut a2 = [0u64; 25];
    a2[7] = 1;
    chi(&mut a1);
    chi(&mut a2);
    assert_ne!(a1, a2);
}
