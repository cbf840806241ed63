//! GEAR rolling fingerprint and the fingerprint index of a base blob.
//!
//! Every byte value has a fixed 64-bit gear value. The fingerprint of a
//! position is a weighted sum of the gear values of the bytes up to the end
//! of the window at that position, in which the weight of a byte doubles
//! with every byte that follows it; sums are taken modulo 2^64, so a byte
//! drops out once 64 bytes have followed it. Moving on by one byte costs one
//! shift and one addition. The index maps the top bits of a fingerprint to
//! the last position of the base that had it.

use vstd::arithmetic::div_mod::lemma_mod_multiples_vanish;
use vstd::arithmetic::power2::pow2;
use vstd::prelude::*;

verus! {

/// Width of the fingerprint window, in bytes.
pub const WORD_SIZE: usize = 8;

/// The gear value of each byte value. These constants are part of the
/// encoder and must not change: the same inputs must always give the same
/// delta.
pub const GEAR: [u64; 256] = [
    0x84c0e79b8ded5679, 0xb8feb2dd618280f3, 0xb34643d42a342e69, 0x9653a7115d63f34e,
    0xb41921f765f32287, 0x7b991604467e126e, 0xad979c9f29bd950c, 0xc1fd396466dc590a,
    0x6fed34c08e4e30ab, 0x0afa5eee5666065b, 0x74d46cdfaf4d27e8, 0x4343d17ae40a8dce,
    0xfb7c6f5a7fad4b94, 0xfa2e2a2fda70bb17, 0xc97c823d4a62a9bc, 0x5801157273f39458,
    0xfa65a536c24b4fe3, 0x770409d1beed40f2, 0xe65546d5d29acd6e, 0xc12e156dac2d4084,
    0x5cde9575710be257, 0x610914396552b7dc, 0x024367f65390317f, 0xb539817b899fc597,
    0x6b8d9d0161018819, 0x613a7e2c6ce889da, 0xd2ea5ad290df1137, 0x38acff90f571da7c,
    0xdbed6a0494761fe2, 0xf3f6d23c6b1dbd40, 0xbe6e7b4f547ae30e, 0x6e614ef40655e831,
    0x2f8a315f1a547544, 0x4c5896a9d1f57b10, 0x40c57e7a603b243c, 0x94702c7f25b66018,
    0x92280326659a9740, 0x3aff1d70e2429b72, 0x8e35cffad36f8fb2, 0xa3d4c0ce353c6c7d,
    0x6379c6c076f25996, 0xf82614638ef21861, 0x16b2d260c856a1c4, 0x79d228c7f0d653a1,
    0x3d282e16bec988a6, 0x9753865358143606, 0x2c21d24ba6cb204f, 0xd5a738e85b1ba722,
    0x454c990f72f08cd4, 0x6b3c512b56ea1042, 0x03f2e10dee3b36ed, 0xa7a909254bc3cf43,
    0xe7ad5189f390c42c, 0xbc15aab07c662f80, 0xd7a324bda513d3ff, 0x8a92e183e11d4c42,
    0x68ced8edc398c535, 0x875107dec1d1c589, 0xf0365837465a3412, 0xcc403db1964c5fbf,
    0x6bbfb3e5f56ffd62, 0x8fa2840b3a86b921, 0x79bce53189537c41, 0x2053c4ecfae38f9e,
    0x7b59dfd6477de689, 0x09f49fb883300f2b, 0x378d334b3fc9d0ce, 0xbf028e87d798166e,
    0xdc2da775c85130d9, 0x388b2817e646ca69, 0x4b6f281f0a553fae, 0xd3e8b736669d4a2c,
    0xccffeabe7b3f16a8, 0x00983b06c9721f75, 0x8bcde022c31ddb57, 0x2b32169760b8a501,
    0xa528ac75715d5eb7, 0x82bdb0afdc9dd47d, 0xf0c34c21dec4c428, 0xfe82b7d2fc84c161,
    0x8f856b46a9dba6ac, 0x16d0d7d0483a1998, 0x98ba3a81cc3253af, 0x993478bedacd664a,
    0xe4e8e504ce232e09, 0x6c28abf364544971, 0x379b2f2a42bc4da2, 0x417fde8447c0658c,
    0xd7205877b4072a0b, 0xac857cc31cdc2832, 0x0fadf82df8f6e7e8, 0x8b5f2894315b7390,
    0x5e3972dfe4fdd008, 0x9a45cdb0e79b01c6, 0xe45a7abb5b6f4983, 0x3ae6e7220a9a6e1a,
    0xc0789cabfceec2c9, 0x7579dc365581d56e, 0x09a18170d0b8f1c3, 0xded579f363e55c7f,
    0x201cdad15e630ac7, 0x4d9511121be71419, 0x4b52ca4509c92780, 0x227b7e167f5969d5,
    0xce5389e14b49328c, 0x8698206e8d59a7dd, 0x32aff74baa2f2729, 0xbc34a30413de9871,
    0xff002d8aa1cf429c, 0xd9099b5514d3ed87, 0xa7e81f7b57f6ba90, 0xcffd4a8f8716caad,
    0x22b157d719822d3c, 0xaaf74212779d753e, 0x89580a0c5c43f47b, 0x3aaffb9a8bd15d00,
    0x30eb699887698d48, 0x01b0ce53325e3b8f, 0xe3ad4028266b0044, 0x36f82753b50fb377,
    0x7bd46269eb6e9f29, 0xc6b9e7d10be02766, 0x21488cb28e998d71, 0x0dcf34144c25092a,
    0x09584ba4bb95d2b1, 0x48c595f26c842e5f, 0x9c6a4fdd369fbbe2, 0xfcedb76307dad5f4,
    0x7a054a3c0137c81f, 0xf4587a8ef958f0d7, 0xf698a0e32e1bcec8, 0x34e4fae9b1d409d9,
    0xdf91102485d7548e, 0x3bf7d254b1df6687, 0x6d80a3ab320530d2, 0xe124ead65d234e8d,
    0x85162de79fcea9ac, 0x967602463e146a98, 0xbd40aaaed7b48deb, 0x9cb0be075bb3f287,
    0x62dfd6d2cb8ce7ef, 0x1d0d04be30d90b79, 0x33351fbad0251d5a, 0x909e61163d30e686,
    0xc62a88367522c6eb, 0x4b9ba9ffcfa1647e, 0x9f76018eb95deb12, 0x84e0c49067f3aa03,
    0xefb46116ef395915, 0xf61f5ddc6b91e449, 0xc7cd6865b767e56a, 0x84a0338630d819ef,
    0xb3f450a8aa3a21f8, 0x680fa0d108416038, 0x8151f572fff20884, 0x9a991f7aaa3ab7b5,
    0xb04d0af8e938cb22, 0xa2c97b8158db5424, 0x4ad17528e2f84d00, 0x1166c8021bac63d7,
    0xbc095aa7c0bc8ad4, 0x1b207d3abb77e621, 0xb22447537d6df27e, 0x6474c9ba31879b6f,
    0xaa2e742c07359923, 0xde9f6fc84cdb8211, 0x545c9e69393f4426, 0xbe4e532b781d1d5c,
    0xab2778d596c46e18, 0xb2c79d68feec032e, 0xff8183b29b158760, 0x2dc325f133e9eed7,
    0x76c759cea20dc647, 0xaa622d913a6df485, 0x7ba5d01beff6eca1, 0x39e758fa422c75dd,
    0x6fc424c1e81b7362, 0x0d0a0c478bb01bd7, 0x47153338f99fb4b1, 0x0326d25eb2632732,
    0x7d4aa121f04435f0, 0xbdc8c6fb18f0948a, 0xbc31ba07287f5b33, 0x7229196bb26427a7,
    0xb5291a8f158289f3, 0x424a380678651ae4, 0x312bba139b22d1ea, 0x3d969af2dea25668,
    0xa59809530520e393, 0x21a9b62b58daaac5, 0x81c6e6000ca7a0dc, 0x9d034f6097680622,
    0xed7ed18acb59bdec, 0xe0b81ddb82591e77, 0xc8abac18ddf5a399, 0xd8e626eb12a82107,
    0x4019807222c589fd, 0x99bb3c79aaafad90, 0xc4b5e0c763bfb0ce, 0x14f5d1d678e9f324,
    0xe3b6dad5c49cfd4f, 0x902972dfdf4f0382, 0xb06cdc2ab8cf657c, 0x9f942d6dcefd2d9c,
    0xfa776f847d0ac59f, 0x53e5d298240da487, 0x1c7c30a922d21393, 0xc112ee2ffb3ccf55,
    0xbb7e099dc131471b, 0xfa4ccf697208c37a, 0xdc9240d94735a19d, 0x8cc6bcbdf74a7fc8,
    0x1dce4e344cd4b4bf, 0xa09dc7dbc3a24ac1, 0x41806316034877e3, 0x2dca28abc90a94c2,
    0x87ab0c1d3a2e4283, 0x9c8e10ac22a8f042, 0x2f864bd5a3c6688f, 0x32b6031700d4be44,
    0x4bfb9d34f4e3f9ca, 0xd3a11071b5b9d2a1, 0xe8f8ffa9cbeb87ad, 0x20b4f100c7dffec1,
    0xc6564522790638bd, 0xff266bc7d11cc8a6, 0xbdf85c7d1bbb5cf4, 0xf20fddd9eca3fc8a,
    0x9f880969d896b7ce, 0x02f9f4d73c32930f, 0x60467e939ad0844b, 0x5fe12a45878731da,
    0xa90b7e2efc85d3e0, 0x90ec569f05d5ea36, 0xfa354197c4878bd0, 0xfb707801ce8a1973,
    0xe2aa7615dfeea96a, 0x2f0847be7e695181, 0xd1bee75cbe3eea20, 0xfc7c472a228ec2c6,
    0xb0020dea9a058bec, 0x577bf29316742a9a, 0xb280545d55a042e2, 0xc9c098e44334e61e,
    0x47d22781a29949d8, 0x06d640985d03ac31, 0xdd264885e628e901, 0xbcdaae16d0022910,
    0x59b14a29a32baa4a, 0xf701057e65e0cea0, 0xe89761564b4de879, 0x680a125380119ca3,
    0x8121886ec02db12d, 0x6932f62b776fa7ed, 0x8bb4fd23fa40bfb2, 0x487bbc610d0b9981,
];

/// The gear value of `byte`.
pub open spec fn gear(byte: u8) -> u64 {
    GEAR[byte as int]
}

/// The weighted sum of the gear values of `count` bytes from `from` on: the
/// last byte has weight 1, and each byte before it twice the weight of the
/// next.
pub open spec fn weighted_sum(data: Seq<u8>, from: int, count: int) -> nat
    decreases count,
{
    if count <= 0 {
        0
    } else {
        2 * weighted_sum(data, from, count - 1) + gear(data[from + count - 1]) as nat
    }
}

/// The fingerprint at `pos` of a scan that started at `origin <= pos`: the
/// weighted sum, modulo 2^64, of the bytes from `origin` to the end of the
/// window at `pos`.
pub open spec fn fingerprint_from(data: Seq<u8>, origin: int, pos: int) -> u64 {
    (weighted_sum(data, origin, pos - origin + WORD_SIZE as int) % 0x1_0000_0000_0000_0000) as u64
}

/// The fingerprint of the window at `pos` alone:
/// `gear(b[pos]) * 2^7 + gear(b[pos + 1]) * 2^6 + ... + gear(b[pos + 7])`,
/// modulo 2^64.
pub open spec fn window_fingerprint(data: Seq<u8>, pos: int) -> u64 {
    fingerprint_from(data, pos, pos)
}

/// The fingerprint after `incoming` has entered the window: twice the old
/// one plus the gear value of the new byte, modulo 2^64. Nothing is
/// subtracted for the byte that leaves.
pub open spec fn rolled(fingerprint: u64, incoming: u8) -> u64 {
    ((2 * fingerprint + gear(incoming)) % 0x1_0000_0000_0000_0000) as u64
}

/// The window fingerprint written out term by term.
pub proof fn window_fingerprint_terms(data: Seq<u8>, pos: int)
    ensures
        window_fingerprint(data, pos) == (128 * gear(data[pos]) + 64 * gear(data[pos + 1]) + 32
            * gear(data[pos + 2]) + 16 * gear(data[pos + 3]) + 8 * gear(data[pos + 4]) + 4 * gear(
            data[pos + 5],
        ) + 2 * gear(data[pos + 6]) + gear(data[pos + 7])) % 0x1_0000_0000_0000_0000,
{
    reveal_with_fuel(weighted_sum, 9);
}

/// **Rollability.** Rolling the fingerprint at `pos` by the byte that
/// follows its window gives the fingerprint at `pos + 1`.
pub proof fn fingerprint_rolls(data: Seq<u8>, origin: int, pos: int)
    requires
        origin <= pos,
    ensures
        rolled(fingerprint_from(data, origin, pos), data[pos + WORD_SIZE as int])
            == fingerprint_from(data, origin, pos + 1),
{
    let sum = weighted_sum(data, origin, pos - origin + 8);
    let g = gear(data[pos + 8]) as int;
    assert(weighted_sum(data, origin, pos + 1 - origin + 8) == 2 * sum + g);
    doubling_respects_modulus(sum as int, g);
}

/// **Determinism.** The window fingerprint depends on the eight bytes of
/// the window and on nothing else.
pub proof fn window_fingerprint_local(a: Seq<u8>, i: int, b: Seq<u8>, j: int)
    requires
        0 <= i,
        i + WORD_SIZE <= a.len(),
        0 <= j,
        j + WORD_SIZE <= b.len(),
        a.subrange(i, i + WORD_SIZE as int) == b.subrange(j, j + WORD_SIZE as int),
    ensures
        window_fingerprint(a, i) == window_fingerprint(b, j),
{
    window_fingerprint_terms(a, i);
    window_fingerprint_terms(b, j);
    let wa = a.subrange(i, i + 8);
    let wb = b.subrange(j, j + 8);
    assert(a[i + 0] == wa[0] && b[j + 0] == wb[0]);
    assert(a[i + 1] == wa[1] && b[j + 1] == wb[1]);
    assert(a[i + 2] == wa[2] && b[j + 2] == wb[2]);
    assert(a[i + 3] == wa[3] && b[j + 3] == wb[3]);
    assert(a[i + 4] == wa[4] && b[j + 4] == wb[4]);
    assert(a[i + 5] == wa[5] && b[j + 5] == wb[5]);
    assert(a[i + 6] == wa[6] && b[j + 6] == wb[6]);
    assert(a[i + 7] == wa[7] && b[j + 7] == wb[7]);
}

/// A weighted sum splits in two: the sum of the first `count` bytes, doubled
/// once for each of the `more` bytes that follow, plus the sum of those.
pub proof fn weighted_sum_splits(data: Seq<u8>, from: int, count: int, more: int)
    requires
        0 <= count,
        0 <= more,
    ensures
        weighted_sum(data, from, count + more) == pow2(more as nat) * weighted_sum(
            data,
            from,
            count,
        ) + weighted_sum(data, from + count, more),
    decreases more,
{
    if more == 0 {
        vstd::arithmetic::power2::lemma2_to64();
    } else {
        weighted_sum_splits(data, from, count, more - 1);
        vstd::arithmetic::power2::lemma_pow2_unfold(more as nat);
        let head = weighted_sum(data, from, count);
        let half = pow2((more - 1) as nat);
        assert(2 * (half * head) == (2 * half) * head) by (nonlinear_arith);
    }
}

/// The weighted sums of two equal stretches of bytes are equal.
pub proof fn weighted_sum_local(a: Seq<u8>, i: int, b: Seq<u8>, j: int, count: int)
    requires
        0 <= count,
        0 <= i,
        i + count <= a.len(),
        0 <= j,
        j + count <= b.len(),
        a.subrange(i, i + count) == b.subrange(j, j + count),
    ensures
        weighted_sum(a, i, count) == weighted_sum(b, j, count),
    decreases count,
{
    if count > 0 {
        assert(a[i + count - 1] == a.subrange(i, i + count)[count - 1]);
        assert(b[j + count - 1] == b.subrange(j, j + count)[count - 1]);
        assert(a.subrange(i, i + count - 1) =~= a.subrange(i, i + count).subrange(0, count - 1));
        assert(b.subrange(j, j + count - 1) =~= b.subrange(j, j + count).subrange(0, count - 1));
        weighted_sum_local(a, i, b, j, count - 1);
    }
}

/// A fingerprint with 64 bytes behind the end of its window is the weighted
/// sum of those 64 bytes, modulo 2^64: what came before has dropped out.
pub proof fn fingerprint_keeps_64_bytes(data: Seq<u8>, origin: int, pos: int)
    requires
        origin + 56 <= pos,
    ensures
        fingerprint_from(data, origin, pos) == weighted_sum(data, pos - 56, 64)
            % 0x1_0000_0000_0000_0000,
{
    let count = pos - origin - 56;
    weighted_sum_splits(data, origin, count, 64);
    vstd::arithmetic::power2::lemma2_to64_rest();
    lemma_mod_multiples_vanish(
        weighted_sum(data, origin, count) as int,
        weighted_sum(data, pos - 56, 64) as int,
        0x1_0000_0000_0000_0000,
    );
}

/// **A rolled fingerprint depends on 64 bytes.** Two scans have the same
/// fingerprint wherever the 64 bytes up to the end of the window are the
/// same and each scan started at least 56 bytes before the window.
pub proof fn rolled_fingerprint_local(
    a: Seq<u8>,
    origin_a: int,
    i: int,
    b: Seq<u8>,
    origin_b: int,
    j: int,
)
    requires
        origin_a + 56 <= i,
        origin_b + 56 <= j,
        56 <= i,
        i + WORD_SIZE <= a.len(),
        56 <= j,
        j + WORD_SIZE <= b.len(),
        a.subrange(i - 56, i + WORD_SIZE as int) == b.subrange(j - 56, j + WORD_SIZE as int),
    ensures
        fingerprint_from(a, origin_a, i) == fingerprint_from(b, origin_b, j),
{
    fingerprint_keeps_64_bytes(a, origin_a, i);
    fingerprint_keeps_64_bytes(b, origin_b, j);
    weighted_sum_local(a, i - 56, b, j - 56, 64);
}

proof fn doubling_respects_modulus(a: int, b: int)
    requires
        0 <= a,
    ensures
        (2 * (a % 0x1_0000_0000_0000_0000) + b) % 0x1_0000_0000_0000_0000 == (2 * a + b)
            % 0x1_0000_0000_0000_0000,
{
    let m = 0x1_0000_0000_0000_0000;
    let q = a / m;
    let r = a % m;
    assert(a == m * q + r);
    assert(2 * a + b == m * (2 * q) + (2 * r + b));
    lemma_mod_multiples_vanish(2 * q, 2 * r + b, m);
}

proof fn shift_doubles(fingerprint: u64)
    by (bit_vector)
    ensures
        fingerprint << 1u32 == (2 * fingerprint) % 0x1_0000_0000_0000_0000,
{
}

/// Rolls `fingerprint` on by one byte.
pub fn roll_fingerprint(fingerprint: u64, incoming: u8) -> (next: u64)
    ensures
        next == rolled(fingerprint, incoming),
{
    proof {
        shift_doubles(fingerprint);
    }
    (fingerprint << 1u32).wrapping_add(GEAR[incoming as usize])
}

/// The fingerprint of the window at `pos`.
pub fn compute_fingerprint(data: &[u8], pos: usize) -> (fingerprint: u64)
    requires
        pos + WORD_SIZE <= data@.len(),
    ensures
        fingerprint == window_fingerprint(data@, pos as int),
{
    let mut fingerprint: u64 = 0;
    let mut i: usize = 0;
    assert(data@.len() == data.len());
    while i < WORD_SIZE
        invariant
            i <= WORD_SIZE,
            pos + WORD_SIZE <= data@.len() <= usize::MAX,
            fingerprint == weighted_sum(data@, pos as int, i as int) % 0x1_0000_0000_0000_0000,
        decreases WORD_SIZE - i,
    {
        proof {
            doubling_respects_modulus(
                weighted_sum(data@, pos as int, i as int) as int,
                gear(data@[pos + i]) as int,
            );
        }
        fingerprint = roll_fingerprint(fingerprint, data[pos + i]);
        i += 1;
    }
    fingerprint
}

/// The slot of a fingerprint in an index of `2^bits` slots: its top `bits`
/// bits.
pub open spec fn slot_of(fingerprint: u64, bits: u32) -> int {
    fingerprint as int / pow2((64 - bits) as nat) as int
}

/// The number of positions of `[lo, hi)` at which a whole window lies within
/// the region.
pub open spec fn window_count(lo: int, hi: int) -> int {
    if hi - lo >= WORD_SIZE {
        hi - lo - WORD_SIZE + 1
    } else {
        0
    }
}

/// The index after the first `count` positions from `lo` on have been
/// entered, each under the slot of its fingerprint in a scan from `lo`. A
/// later position replaces an earlier one in the same slot. A slot holds the
/// position in 32 bits; 0 stands for an empty slot.
pub open spec fn index_after(data: Seq<u8>, lo: int, bits: u32, count: int) -> Seq<u32>
    decreases count,
{
    if count <= 0 {
        Seq::new(pow2(bits as nat), |slot: int| 0u32)
    } else {
        let pos = lo + count - 1;
        index_after(data, lo, bits, count - 1).update(
            slot_of(fingerprint_from(data, lo, pos), bits),
            pos as u32,
        )
    }
}

/// The index of the region `[lo, hi)` of `data` with `2^bits` slots.
pub open spec fn fingerprint_index(data: Seq<u8>, lo: int, hi: int, bits: u32) -> Seq<u32> {
    index_after(data, lo, bits, window_count(lo, hi))
}

/// A slot is a valid index into a table of `2^bits` slots.
pub proof fn slot_in_range(fingerprint: u64, bits: u32)
    requires
        1 <= bits <= 32,
    ensures
        0 <= slot_of(fingerprint, bits) < pow2(bits as nat),
        slot_of(fingerprint, bits) == fingerprint >> ((64 - bits) as u64),
{
    let shift = (64 - bits) as u64;
    vstd::bits::lemma_u64_shr_is_div(fingerprint, shift);
    vstd::arithmetic::power2::lemma_pow2_adds(shift as nat, bits as nat);
    vstd::arithmetic::power2::lemma_pow2_pos(shift as nat);
    vstd::arithmetic::power2::lemma2_to64_rest();
    let d = pow2(shift as nat) as int;
    let n = pow2(bits as nat) as int;
    assert(pow2((shift + bits) as nat) == 0x1_0000_0000_0000_0000);
    let y = n * d;
    assert(y == d * n) by (nonlinear_arith)
        requires
            y == n * d,
    ;
    assert(fingerprint as int / d < n) by {
        vstd::arithmetic::div_mod::lemma_div_by_multiple_is_strongly_ordered(
            fingerprint as int,
            y,
            n,
            d,
        );
        vstd::arithmetic::div_mod::lemma_div_by_multiple(n, d);
    }
    vstd::arithmetic::div_mod::lemma_div_pos_is_pos(fingerprint as int, d);
}

/// An index has `2^bits` slots.
pub proof fn index_after_len(data: Seq<u8>, lo: int, bits: u32, count: int)
    requires
        1 <= bits <= 32,
    ensures
        index_after(data, lo, bits, count).len() == pow2(bits as nat),
    decreases count,
{
    if count > 0 {
        index_after_len(data, lo, bits, count - 1);
        slot_in_range(fingerprint_from(data, lo, lo + count - 1), bits);
    }
}

/// Whether the position `pos` of a scan from `lo` is entered under `slot`.
pub open spec fn falls_into(data: Seq<u8>, lo: int, bits: u32, pos: int, slot: int) -> bool {
    slot_of(fingerprint_from(data, lo, pos), bits) == slot
}

/// Whether `entry` is what a slot holds when the last of the first `count`
/// positions from `lo` on that fall into it is `pos`.
pub open spec fn is_last_writer(
    data: Seq<u8>,
    lo: int,
    bits: u32,
    count: int,
    slot: int,
    pos: int,
    entry: u32,
) -> bool {
    &&& lo <= pos < lo + count
    &&& falls_into(data, lo, bits, pos, slot)
    &&& entry == pos as u32
    &&& forall|later: int|
        pos < later < lo + count ==> !#[trigger] falls_into(data, lo, bits, later, slot)
}

/// **Last writer wins.** A slot of the index holds the last position that
/// falls into it, or 0 if none does.
pub proof fn index_keeps_last_writer(data: Seq<u8>, lo: int, bits: u32, count: int, slot: int)
    requires
        1 <= bits <= 32,
        0 <= slot < pow2(bits as nat),
        0 <= count,
    ensures
        (index_after(data, lo, bits, count)[slot] == 0 && forall|pos: int|
            lo <= pos < lo + count ==> !#[trigger] falls_into(data, lo, bits, pos, slot)) || exists|
            pos: int,
        |
            #[trigger] is_last_writer(
                data,
                lo,
                bits,
                count,
                slot,
                pos,
                index_after(data, lo, bits, count)[slot],
            ),
    decreases count,
{
    if count > 0 {
        let last = lo + count - 1;
        let before = index_after(data, lo, bits, count - 1);
        let after = index_after(data, lo, bits, count);
        index_keeps_last_writer(data, lo, bits, count - 1, slot);
        index_after_len(data, lo, bits, count - 1);
        slot_in_range(fingerprint_from(data, lo, last), bits);
        if falls_into(data, lo, bits, last, slot) {
            assert(is_last_writer(data, lo, bits, count, slot, last, after[slot]));
        } else {
            assert(after[slot] == before[slot]);
            if exists|pos: int|
                #[trigger] is_last_writer(data, lo, bits, count - 1, slot, pos, before[slot]) {
                let pos = choose|pos: int|
                    #[trigger] is_last_writer(data, lo, bits, count - 1, slot, pos, before[slot]);
                assert(is_last_writer(data, lo, bits, count, slot, pos, after[slot]));
            }
        }
    }
}

/// Builds the index of the region `[start, end)` of `data` with
/// `2^hash_bits` slots.
pub fn build_hash_table(data: &[u8], start: usize, end: usize, hash_bits: u32) -> (table: Vec<u32>)
    requires
        start <= end <= data@.len(),
        1 <= hash_bits <= 32,
        pow2(hash_bits as nat) <= usize::MAX,
    ensures
        table@ == fingerprint_index(data@, start as int, end as int, hash_bits),
{
    proof {
        vstd::arithmetic::power2::lemma2_to64();
        vstd::bits::lemma_usize_shl_is_mul(1usize, hash_bits as usize);
    }
    let size: usize = 1usize << (hash_bits as usize);
    let mut table: Vec<u32> = vec![0u32; size];
    assert(table@ =~= index_after(data@, start as int, hash_bits, 0));
    if end - start < WORD_SIZE {
        return table;
    }
    let shift: u64 = 64 - hash_bits as u64;
    let last: usize = end - WORD_SIZE;
    let mut fingerprint = compute_fingerprint(data, start);
    let mut pos: usize = start;
    loop
        invariant_except_break
            table@ == index_after(data@, start as int, hash_bits, pos - start),
            fingerprint == fingerprint_from(data@, start as int, pos as int),
        invariant
            start <= pos <= last,
            last + WORD_SIZE == end,
            end <= data@.len(),
            1 <= hash_bits <= 32,
            pow2(hash_bits as nat) <= usize::MAX,
            shift == 64 - hash_bits,
        ensures
            table@ == index_after(data@, start as int, hash_bits, last - start + 1),
        decreases last - pos,
    {
        proof {
            slot_in_range(fingerprint, hash_bits);
            index_after_len(data@, start as int, hash_bits, pos - start);
        }
        let slot: usize = (fingerprint >> shift) as usize;
        table.set(slot, #[verifier::truncate] (pos as u32));
        assert(table@ == index_after(data@, start as int, hash_bits, pos - start + 1));
        if pos == last {
            break ;
        }
        proof {
            fingerprint_rolls(data@, start as int, pos as int);
        }
        fingerprint = roll_fingerprint(fingerprint, data[pos + WORD_SIZE]);
        pos += 1;
    }
    table
}

} // verus!
