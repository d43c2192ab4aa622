use vstd::prelude::*;

use crate::bytes::{bytes_to_lanes, lane_byte, lanes_to_bytes};
use crate::decimal::lemma_decimal_len_u64;
use crate::keccak_spec::{keccak_f, lemma_keccak_rounds_len};
use crate::selector::swap_bytes32;
use crate::small_string::SmallString;
use crate::sponge::{
    keccak_rate_block, lemma_padded_block_is_keccak_padding, lemma_written_text, message,
    padded_block, Sponge,
};
use crate::sponges_avx::SpongesAvx;
use vstd::utf8::{decode_utf8, valid_utf8};

verus! {

/// The selector the miner computes for a message: Keccak-f[1600] applied to
/// the padded block, low 32 bits of the first lane (the first four digest
/// bytes read as a little-endian number).
pub open spec fn selector_of(msg: Seq<u8>) -> u32 {
    keccak_f(bytes_to_lanes(padded_block(msg)))[0] as u32
}

/// Whether a name and a parameter list leave room for any nonce: together
/// they must be shorter than 115 bytes.
pub open spec fn spec_lengths_fit(function_name: &SmallString, function_params: &SmallString) -> bool {
    function_name.length + function_params.length < 115
}

/// Whether the name and the parameter list are short enough to mine with.
pub fn lengths_fit(function_name: &SmallString, function_params: &SmallString) -> (r: bool)
    ensures
        r == spec_lengths_fit(function_name, function_params),
        r <==> function_name.length + function_params.length < 115,
{
    function_name.length < 115 && function_params.length < 115 - function_name.length
}

/// With lengths that fit, every message is at most 134 bytes long, so it and
/// its domain byte lie within the 136-byte rate block, before byte 135.
pub proof fn lemma_message_fits(
    function_name: &SmallString,
    nonce: u64,
    function_params: &SmallString,
)
    requires
        spec_lengths_fit(function_name, function_params),
    ensures
        message(function_name.bytes(), nonce, function_params.bytes()).len() <= 134,
{
    lemma_decimal_len_u64(nonce);
}

/// Hashes the message for `nonce` and returns it when its selector is
/// `selector`.
pub fn try_nonce(
    function_name: &SmallString,
    nonce: u64,
    function_params: &SmallString,
    selector: u32,
) -> (r: Option<String>)
    requires
        spec_lengths_fit(function_name, function_params),
        valid_utf8(function_name.bytes()),
        valid_utf8(function_params.bytes()),
    ensures
        r is Some <==> selector_of(message(function_name.bytes(), nonce, function_params.bytes()))
            == selector,
        r matches Some(s) ==> s@ == decode_utf8(
            message(function_name.bytes(), nonce, function_params.bytes()),
        ),
{
    proof {
        lemma_message_fits(function_name, nonce, function_params);
        lemma_written_text(function_name.bytes(), nonce, function_params.bytes());
    }
    let mut s0 = Sponge::default();
    s0.fill(function_name, nonce, function_params);
    if selector == s0.compute_selectors() {
        Some(s0.fill_and_get_name(function_name, nonce, function_params))
    } else {
        None
    }
}

/// Hashes the messages for nonces `nonce` to `nonce + 3` together and
/// returns the first of them whose selector is `selector`.
pub fn try_nonces4(
    function_name: &SmallString,
    nonce: u64,
    function_params: &SmallString,
    selector: u32,
) -> (r: Option<String>)
    requires
        spec_lengths_fit(function_name, function_params),
        valid_utf8(function_name.bytes()),
        valid_utf8(function_params.bytes()),
        nonce <= u64::MAX - 3,
    ensures
        r is Some <==> exists|k: int|
            0 <= k < 4 && #[trigger] selector_of(
                message(function_name.bytes(), (nonce + k) as u64, function_params.bytes()),
            ) == selector,
        r matches Some(s) ==> exists|k: int|
            0 <= k < 4 && #[trigger] selector_of(
                message(function_name.bytes(), (nonce + k) as u64, function_params.bytes()),
            ) == selector && (forall|j: int|
                0 <= j < k ==> #[trigger] selector_of(
                    message(function_name.bytes(), (nonce + j) as u64, function_params.bytes()),
                ) != selector) && s@ == decode_utf8(
                message(function_name.bytes(), (nonce + k) as u64, function_params.bytes()),
            ),
{
    assert forall|k: int| 0 <= k < 4 implies (#[trigger] message(
        function_name.bytes(),
        (nonce + k) as u64,
        function_params.bytes(),
    )).len() < 200 by {
        lemma_message_fits(function_name, (nonce + k) as u64, function_params);
    }
    let mut sponges = SpongesAvx::new(function_name, nonce, function_params);
    let selectors = sponges.compute_selectors();
    let mut idx: usize = 0;
    while idx < 4
        invariant
            idx <= 4,
            nonce <= u64::MAX - 3,
            spec_lengths_fit(function_name, function_params),
            valid_utf8(function_name.bytes()),
            valid_utf8(function_params.bytes()),
            forall|k: int|
                0 <= k < 4 ==> #[trigger] selectors@[k] == selector_of(
                    message(function_name.bytes(), (nonce + k) as u64, function_params.bytes()),
                ),
            forall|j: int| 0 <= j < idx ==> #[trigger] selectors@[j] != selector,
        decreases 4 - idx,
    {
        if selectors[idx] == selector {
            let found = nonce + idx as u64;
            proof {
                lemma_message_fits(function_name, found, function_params);
                lemma_written_text(function_name.bytes(), found, function_params.bytes());
            }
            let mut s = Sponge::default();
            let name = s.fill_and_get_name(function_name, found, function_params);
            assert(selectors@[idx as int] == selector);
            assert forall|j: int| 0 <= j < idx implies #[trigger] selector_of(
                message(function_name.bytes(), (nonce + j) as u64, function_params.bytes()),
            ) != selector by {
                assert(selectors@[j] != selector);
            }
            return Some(name);
        }
        idx = idx + 1;
    }
    assert forall|k: int| 0 <= k < 4 implies #[trigger] selector_of(
        message(function_name.bytes(), (nonce + k) as u64, function_params.bytes()),
    ) != selector by {
        assert(selectors@[k] != selector);
    }
    None
}

/// The first 32 bytes of the permuted padded block: the Keccak-256 digest of
/// the message when it is at most 134 bytes long.
pub open spec fn digest(msg: Seq<u8>) -> Seq<u8> {
    lanes_to_bytes(keccak_f(bytes_to_lanes(padded_block(msg)))).subrange(0, 32)
}

/// The selector in big-endian form is the first four bytes of the digest,
/// the first byte most significant: the function selector as the Ethereum ABI
/// defines it.
pub proof fn lemma_selector_is_digest_prefix(msg: Seq<u8>)
    requires
        msg.len() <= 134,
    ensures
        swap_bytes32(selector_of(msg)) == ((digest(msg)[0] as u32) << 24) | ((digest(msg)[1] as u32)
            << 16) | ((digest(msg)[2] as u32) << 8) | (digest(msg)[3] as u32),
{
    let lanes = bytes_to_lanes(padded_block(msg));
    assert(lanes.len() == 25);
    lemma_keccak_rounds_len(lanes, 24);
    let out = keccak_f(lanes);
    let v = out[0];
    let d = digest(msg);
    assert(d[0] == lane_byte(v, 0));
    assert(d[1] == lane_byte(v, 1));
    assert(d[2] == lane_byte(v, 2));
    assert(d[3] == lane_byte(v, 3));
    let x = v as u32;
    assert(swap_bytes32(x) == ((lane_byte(v, 0) as u32) << 24) | ((lane_byte(v, 1) as u32) << 16) | ((
    lane_byte(v, 2) as u32) << 8) | (lane_byte(v, 3) as u32)) by (bit_vector)
        requires
            x == v as u32,
    ;
}

/// Lane `k` of four sponges filled from nonce `nonce` gives the same selector
/// as one sponge filled with nonce `nonce + k`: the selector of that message.
pub proof fn lemma_batch_matches_single(
    batch: SpongesAvx,
    single: Sponge,
    function_name: &SmallString,
    nonce: u64,
    function_params: &SmallString,
    k: int,
)
    requires
        0 <= k < 4,
        nonce <= u64::MAX - 3,
        batch.lane_state(k) == bytes_to_lanes(
            padded_block(message(function_name.bytes(), (nonce + k) as u64, function_params.bytes())),
        ),
        single.uint64s@ == bytes_to_lanes(
            padded_block(message(function_name.bytes(), (nonce + k) as u64, function_params.bytes())),
        ),
    ensures
        batch.lane_selector(k) == single.selector(),
        single.selector() == selector_of(
            message(function_name.bytes(), (nonce + k) as u64, function_params.bytes()),
        ),
{
}

/// The length rule accepts exactly the pairs whose lengths add up to less
/// than 115 bytes, however the total is split between name and parameters.
pub proof fn lemma_lengths_fit_rule(function_name: &SmallString, function_params: &SmallString)
    ensures
        spec_lengths_fit(function_name, function_params) <==> function_name.length
            + function_params.length < 115,
{
}

/// For every message of at most 134 bytes, the selector is computed from the
/// Keccak-256 padding of the message: the rate block of `keccak_rate_block`
/// followed by 64 zero capacity bytes, permuted once.
pub proof fn lemma_selector_is_keccak256(msg: Seq<u8>)
    requires
        msg.len() <= 134,
    ensures
        selector_of(msg) == keccak_f(
            bytes_to_lanes(keccak_rate_block(msg) + Seq::new(64, |i: int| 0u8)),
        )[0] as u32,
{
    lemma_padded_block_is_keccak_padding(msg);
    assert(padded_block(msg) =~= keccak_rate_block(msg) + Seq::new(64, |i: int| 0u8));
}

} // verus!
