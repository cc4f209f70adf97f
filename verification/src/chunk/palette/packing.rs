//! Bit-level model of the packed long arrays that hold palette indices.
use vstd::prelude::*;

verus! {

/// The mask that keeps the low `bw` bits of a long.
pub open spec fn low_mask(bw: nat) -> u64 {
    ((1u64 << (bw as u64)) - 1) as u64
}

/// How many entries of `bw` bits fit in one 64-bit long.
pub open spec fn entries_per_long(bw: nat) -> nat {
    64nat / bw
}

/// The bit position at which entry `i` starts inside its long.
pub open spec fn bit_offset(i: nat, bw: nat) -> nat {
    (i % entries_per_long(bw)) * bw
}

/// The index of the long that holds entry `i`.
pub open spec fn long_index(i: nat, bw: nat) -> nat {
    i / entries_per_long(bw)
}

/// The `bw`-bit field that starts at bit `off` of `word`.
pub open spec fn field_of(word: u64, off: nat, bw: nat) -> u64 {
    (word >> (off as u64)) & low_mask(bw)
}

/// Entry `i` of a buffer of longs packed with `bw` bits per entry.
pub open spec fn unpack_spec(data: Seq<u64>, i: nat, bw: nat) -> u64 {
    field_of(data[long_index(i, bw) as int], bit_offset(i, bw), bw)
}

/// `word` with the `bw`-bit field at `off` replaced by the low bits of `v`.
pub open spec fn set_field(word: u64, off: nat, bw: nat, v: u64) -> u64 {
    (word & !(low_mask(bw) << (off as u64))) | ((v & low_mask(bw)) << (off as u64))
}

/// The buffer after entry `i` has been overwritten with `v`.
pub open spec fn pack_spec(data: Seq<u64>, i: nat, bw: nat, v: u64) -> Seq<u64> {
    data.update(
        long_index(i, bw) as int,
        set_field(data[long_index(i, bw) as int], bit_offset(i, bw), bw, v),
    )
}

/// Whether the first `n` entries of `bw` bits each lie inside `data`.
pub open spec fn covers(data_len: nat, n: nat, bw: nat) -> bool {
    n == 0 || long_index((n - 1) as nat, bw) < data_len
}

/// The number of longs needed for `n` entries of `bw` bits.
pub open spec fn num_longs(n: nat, bw: nat) -> nat {
    (n + (entries_per_long(bw) - 1)) as nat / entries_per_long(bw)
}

/// The number of bits needed to write `n` in binary (0 for 0).
pub open spec fn bit_length(n: nat) -> nat
    decreases n,
{
    if n == 0 {
        0
    } else {
        1 + bit_length(n / 2)
    }
}

/// Reading a field back after it was written gives the low bits of what was written.
pub proof fn lemma_field_same(word: u64, off: u64, bw: u64, v: u64)
    requires
        1 <= bw <= 63,
        off + bw <= 64,
    ensures
        field_of(set_field(word, off as nat, bw as nat, v), off as nat, bw as nat) == v & low_mask(
            bw as nat,
        ),
{
    assert((((word & !((((1u64 << bw) - 1) as u64) << off)) | ((v & (((1u64 << bw) - 1) as u64))
        << off)) >> off) & (((1u64 << bw) - 1) as u64) == v & (((1u64 << bw) - 1) as u64))
        by (bit_vector)
        requires
            1 <= bw <= 63,
            off + bw <= 64,
    ;
}

/// Writing a field leaves every disjoint field of the same long unchanged.
pub proof fn lemma_field_other(word: u64, off: u64, other: u64, bw: u64, v: u64)
    requires
        1 <= bw <= 63,
        off + bw <= 64,
        other + bw <= 64,
        off + bw <= other || other + bw <= off,
    ensures
        field_of(set_field(word, off as nat, bw as nat, v), other as nat, bw as nat) == field_of(
            word,
            other as nat,
            bw as nat,
        ),
{
    assert((((word & !((((1u64 << bw) - 1) as u64) << off)) | ((v & (((1u64 << bw) - 1) as u64))
        << off)) >> other) & (((1u64 << bw) - 1) as u64) == (word >> other) & (((1u64 << bw)
        - 1) as u64)) by (bit_vector)
        requires
            1 <= bw <= 63,
            off + bw <= 64,
            other + bw <= 64,
            off + bw <= other || other + bw <= off,
    ;
}


/// The field of entry `i` lies inside its long.
pub proof fn lemma_offset_bound(i: nat, bw: nat)
    requires
        1 <= bw <= 63,
    ensures
        bit_offset(i, bw) + bw <= 64,
        entries_per_long(bw) >= 1,
{
    let epl = entries_per_long(bw);
    assert(epl * bw <= 64) by (nonlinear_arith)
        requires
            epl == 64nat / bw,
            bw >= 1,
    ;
    assert(epl >= 1) by (nonlinear_arith)
        requires
            epl == 64nat / bw,
            1 <= bw <= 63,
    ;
    assert((i % epl) * bw + bw <= epl * bw) by (nonlinear_arith)
        requires
            epl >= 1,
            i % epl < epl,
    ;
}

/// Two distinct entries of the same long occupy disjoint fields.
pub proof fn lemma_offsets_disjoint(i: nat, k: nat, bw: nat)
    requires
        1 <= bw <= 63,
        i != k,
        long_index(i, bw) == long_index(k, bw),
    ensures
        bit_offset(i, bw) + bw <= bit_offset(k, bw) || bit_offset(k, bw) + bw <= bit_offset(i, bw),
{
    lemma_offset_bound(i, bw);
    let epl = entries_per_long(bw);
    assert(i % epl != k % epl) by (nonlinear_arith)
        requires
            epl >= 1,
            i / epl == k / epl,
            i != k,
    {
        assert(i == epl * (i / epl) + i % epl);
        assert(k == epl * (k / epl) + k % epl);
    }
    let a = i % epl;
    let b = k % epl;
    assert(a * bw + bw <= b * bw || b * bw + bw <= a * bw) by (nonlinear_arith)
        requires
            a != b,
            bw >= 1,
    {
        if a < b {
            assert((a + 1) * bw <= b * bw);
        } else {
            assert((b + 1) * bw <= a * bw);
        }
    }
}

/// Reading entry `k` after entry `i` was written: the written value's low bits when `k == i`,
/// the old entry otherwise.
pub proof fn lemma_unpack_pack(data: Seq<u64>, i: nat, k: nat, bw: nat, v: u64)
    requires
        1 <= bw <= 63,
        long_index(i, bw) < data.len(),
        long_index(k, bw) < data.len(),
    ensures
        pack_spec(data, i, bw, v).len() == data.len(),
        unpack_spec(pack_spec(data, i, bw, v), k, bw) == if k == i {
            v & low_mask(bw)
        } else {
            unpack_spec(data, k, bw)
        },
{
    lemma_offset_bound(i, bw);
    lemma_offset_bound(k, bw);
    let li = long_index(i, bw);
    let lk = long_index(k, bw);
    let word = data[li as int];
    if k == i {
        lemma_field_same(word, bit_offset(i, bw) as u64, bw as u64, v);
    } else if li == lk {
        lemma_offsets_disjoint(i, k, bw);
        lemma_field_other(word, bit_offset(i, bw) as u64, bit_offset(k, bw) as u64, bw as u64, v);
    }
}


/// How many of the first `n` entries hold palette index `j`.
pub open spec fn count_index(data: Seq<u64>, bw: nat, j: nat, n: nat) -> nat
    decreases n,
{
    if n == 0 {
        0
    } else {
        count_index(data, bw, j, (n - 1) as nat) + if unpack_spec(data, (n - 1) as nat, bw) == j {
            1nat
        } else {
            0nat
        }
    }
}

/// A buffer that covers `n` entries holds every entry below `n`.
pub proof fn lemma_covers(data_len: nat, n: nat, bw: nat, k: nat)
    requires
        1 <= bw <= 63,
        covers(data_len, n, bw),
        k < n,
    ensures
        long_index(k, bw) < data_len,
{
    lemma_offset_bound(k, bw);
    vstd::arithmetic::div_mod::lemma_div_is_ordered(k as int, (n - 1) as int, entries_per_long(bw) as int);
}

/// `num_longs(n, bw)` longs cover `n` entries.
pub proof fn lemma_num_longs_covers(n: nat, bw: nat)
    requires
        1 <= bw <= 63,
    ensures
        covers(num_longs(n, bw), n, bw),
{
    lemma_offset_bound(0, bw);
    let epl = entries_per_long(bw);
    if n > 0 {
        assert(((n - 1) as nat) / epl < (n + (epl - 1)) as nat / epl) by (nonlinear_arith)
            requires
                epl >= 1,
                n >= 1,
        {
            let q = ((n - 1) as nat) / epl;
            assert((n - 1) as nat >= q * epl) by {
                vstd::arithmetic::div_mod::lemma_fundamental_div_mod((n - 1) as int, epl as int);
            }
            assert((n + (epl - 1)) as nat >= (q + 1) * epl);
            vstd::arithmetic::div_mod::lemma_div_is_ordered(((q + 1) * epl) as int, (n + (epl - 1)) as int, epl as int);
            vstd::arithmetic::div_mod::lemma_div_multiples_vanish((q + 1) as int, epl as int);
        }
    }
}

/// Every field of an all-zero long is zero.
pub proof fn lemma_field_zero(off: u64, bw: u64)
    requires
        1 <= bw <= 63,
        off + bw <= 64,
    ensures
        field_of(0u64, off as nat, bw as nat) == 0,
{
    assert((0u64 >> off) & (((1u64 << bw) - 1) as u64) == 0u64) by (bit_vector);
}

/// The low bits of a value that already fits are the value itself.
pub proof fn lemma_mask_small(v: u64, bw: nat)
    requires
        1 <= bw <= 63,
        (v as nat) < vstd::arithmetic::power2::pow2(bw),
    ensures
        v & low_mask(bw) == v,
{
    let w = bw as u64;
    vstd::arithmetic::power2::lemma_pow2_pos(bw);
    vstd::bits::lemma_u64_pow2_no_overflow(bw);
    vstd::bits::lemma_u64_shl_is_mul(1, w);
    assert(v & (((1u64 << w) - 1) as u64) == v) by (bit_vector)
        requires
            1 <= w <= 63,
            v < (1u64 << w),
    ;
}

/// Counts agree when the two buffers agree on which entries hold the index counted.
pub proof fn lemma_count_same(a: Seq<u64>, abw: nat, x: nat, b: Seq<u64>, bbw: nat, y: nat, n: nat)
    requires
        forall|k: nat| k < n ==> (#[trigger] unpack_spec(a, k, abw) == x) == (unpack_spec(b, k, bbw)
            == y),
    ensures
        count_index(a, abw, x, n) == count_index(b, bbw, y, n),
    decreases n,
{
    if n > 0 {
        lemma_count_same(a, abw, x, b, bbw, y, (n - 1) as nat);
        assert((unpack_spec(a, (n - 1) as nat, abw) == x) == (unpack_spec(b, (n - 1) as nat, bbw) == y));
    }
}

/// Counts only look at the first `n` entries.
pub proof fn lemma_count_prefix(a: Seq<u64>, b: Seq<u64>, bw: nat, j: nat, n: nat)
    requires
        forall|k: nat| k < n ==> #[trigger] unpack_spec(a, k, bw) == unpack_spec(b, k, bw),
    ensures
        count_index(a, bw, j, n) == count_index(b, bw, j, n),
{
    lemma_count_same(a, bw, j, b, bw, j, n);
}

/// A count is at most the number of entries, and below it when some entry holds another index.
pub proof fn lemma_count_bound(data: Seq<u64>, bw: nat, j: nat, n: nat, p: nat)
    ensures
        count_index(data, bw, j, n) <= n,
        p < n && unpack_spec(data, p, bw) != j ==> count_index(data, bw, j, n) < n,
        p < n && unpack_spec(data, p, bw) == j ==> count_index(data, bw, j, n) > 0,
    decreases n,
{
    if n > 0 {
        lemma_count_bound(data, bw, j, (n - 1) as nat, p);
    }
}

/// A zero count means no entry holds the index.
pub proof fn lemma_count_zero(data: Seq<u64>, bw: nat, j: nat, n: nat, k: nat)
    requires
        count_index(data, bw, j, n) == 0,
        k < n,
    ensures
        unpack_spec(data, k, bw) != j,
{
    lemma_count_bound(data, bw, j, n, k);
}

/// Writing entry `p` moves one position from its old index to the written one.
pub proof fn lemma_count_pack(data: Seq<u64>, bw: nat, p: nat, v: u64, j: nat, n: nat)
    requires
        1 <= bw <= 63,
        covers(data.len(), n, bw),
        long_index(p, bw) < data.len(),
    ensures
        count_index(pack_spec(data, p, bw, v), bw, j, n) + (if p < n && unpack_spec(data, p, bw) == j {
            1nat
        } else {
            0nat
        }) == count_index(data, bw, j, n) + (if p < n && v & low_mask(bw) == j {
            1nat
        } else {
            0nat
        }),
    decreases n,
{
    if n > 0 {
        let m = (n - 1) as nat;
        if m > 0 {
            assert(covers(data.len(), m, bw)) by {
                lemma_covers(data.len(), n, bw, (m - 1) as nat);
            }
        }
        lemma_count_pack(data, bw, p, v, j, m);
        lemma_covers(data.len(), n, bw, m);
        lemma_unpack_pack(data, p, m, bw, v);
    }
}


/// When every entry holds `j` the count is `n`; when none does it is zero.
pub proof fn lemma_count_all(data: Seq<u64>, bw: nat, j: nat, n: nat)
    ensures
        (forall|k: nat| k < n ==> #[trigger] unpack_spec(data, k, bw) == j) ==> count_index(data, bw, j, n) == n,
        (forall|k: nat| k < n ==> #[trigger] unpack_spec(data, k, bw) != j) ==> count_index(data, bw, j, n) == 0,
    decreases n,
{
    if n > 0 {
        lemma_count_all(data, bw, j, (n - 1) as nat);
    }
}

/// Every entry of an all-zero buffer is zero.
pub proof fn lemma_unpack_zero(data: Seq<u64>, k: nat, bw: nat)
    requires
        1 <= bw <= 63,
        long_index(k, bw) < data.len(),
        forall|l: int| 0 <= l < data.len() ==> data[l] == 0,
    ensures
        unpack_spec(data, k, bw) == 0,
{
    lemma_offset_bound(k, bw);
    lemma_field_zero(bit_offset(k, bw) as u64, bw as u64);
}


/// A positive count has an entry that holds the index.
pub proof fn lemma_count_witness(data: Seq<u64>, bw: nat, j: nat, n: nat) -> (k: nat)
    requires
        count_index(data, bw, j, n) > 0,
    ensures
        k < n,
        unpack_spec(data, k, bw) == j,
    decreases n,
{
    if unpack_spec(data, (n - 1) as nat, bw) == j {
        (n - 1) as nat
    } else {
        lemma_count_witness(data, bw, j, (n - 1) as nat)
    }
}


/// The longs of a signed buffer, bit for bit.
pub open spec fn as_longs(buffer: Seq<i64>) -> Seq<u64> {
    buffer.map_values(|x: i64| x as u64)
}

/// The signed longs of a buffer, bit for bit.
pub open spec fn as_signed(buffer: Seq<u64>) -> Seq<i64> {
    buffer.map_values(|x: u64| x as i64)
}

/// Entry `i` of a signed buffer, or 0 when its long lies past the end.
pub open spec fn unpack_raw_spec(buffer: Seq<i64>, i: nat, bw: nat) -> u64 {
    if long_index(i, bw) < buffer.len() {
        field_of(buffer[long_index(i, bw) as int] as u64, bit_offset(i, bw), bw)
    } else {
        0
    }
}

/// Reinterpreting a long as signed and back changes nothing.
pub proof fn lemma_signed_roundtrip(x: u64)
    ensures
        (x as i64) as u64 == x,
{
    assert((x as i64) as u64 == x) by (bit_vector);
}

/// The bit length of `i` is what `leading_zeros` leaves of 64 bits.
pub proof fn lemma_leading_zeros(i: u64)
    ensures
        64 - vstd::std_specs::bits::u64_leading_zeros(i) == bit_length(i as nat),
    decreases i,
{
    reveal(vstd::std_specs::bits::u64_leading_zeros);
    if i != 0 {
        lemma_leading_zeros(i / 2);
    }
}

/// `n` fits in `bit_length(n)` bits, and in `b` bits only when `bit_length(n) <= b`.
pub proof fn lemma_bit_length(n: nat, b: nat)
    ensures
        n < vstd::arithmetic::power2::pow2(bit_length(n)),
        n < vstd::arithmetic::power2::pow2(b) ==> bit_length(n) <= b,
        bit_length(n) <= b ==> n < vstd::arithmetic::power2::pow2(b),
    decreases n, b,
{
    vstd::arithmetic::power2::lemma_pow2_pos(b);
    if n > 0 {
        lemma_bit_length(n / 2, (b - 1) as nat);
        vstd::arithmetic::power2::lemma_pow2_unfold(bit_length(n));
        if b > 0 {
            vstd::arithmetic::power2::lemma_pow2_unfold(b);
        } else {
            vstd::arithmetic::power2::lemma2_to64();
        }
    } else {
        vstd::arithmetic::power2::lemma2_to64();
        vstd::arithmetic::power2::lemma_pow2_pos(b);
    }
}


/// The buffer of `num_longs(idx.len(), bw)` longs after the first `n` entries of `idx` were
/// written in order into zeros.
pub open spec fn pack_entries(idx: Seq<u64>, bw: nat, n: nat) -> Seq<u64>
    decreases n,
{
    if n == 0 {
        Seq::new(num_longs(idx.len(), bw), |l: int| 0u64)
    } else {
        pack_spec(pack_entries(idx, bw, (n - 1) as nat), (n - 1) as nat, bw, idx[n - 1])
    }
}

/// What `pack_entries` holds: the low bits of each written entry, zero elsewhere.
pub proof fn lemma_pack_entries(idx: Seq<u64>, bw: nat, n: nat, k: nat)
    requires
        1 <= bw <= 63,
        n <= idx.len(),
        k < idx.len(),
    ensures
        pack_entries(idx, bw, n).len() == num_longs(idx.len(), bw),
        unpack_spec(pack_entries(idx, bw, n), k, bw) == if k < n {
            idx[k as int] & low_mask(bw)
        } else {
            0
        },
    decreases n,
{
    lemma_num_longs_covers(idx.len(), bw);
    lemma_covers(num_longs(idx.len(), bw), idx.len(), bw, k);
    if n == 0 {
        lemma_unpack_zero(pack_entries(idx, bw, 0), k, bw);
    } else {
        let prev = pack_entries(idx, bw, (n - 1) as nat);
        lemma_pack_entries(idx, bw, (n - 1) as nat, k);
        lemma_covers(num_longs(idx.len(), bw), idx.len(), bw, (n - 1) as nat);
        lemma_unpack_pack(prev, (n - 1) as nat, k, bw, idx[n - 1]);
    }
}

/// Writing into an empty field is an or.
pub proof fn lemma_set_empty_field(word: u64, off: u64, bw: u64, v: u64)
    requires
        1 <= bw <= 63,
        off + bw <= 64,
        field_of(word, off as nat, bw as nat) == 0,
    ensures
        set_field(word, off as nat, bw as nat, v) == word | ((v & low_mask(bw as nat)) << off),
{
    assert((word >> off) & (((1u64 << bw) - 1) as u64) == 0 ==> (word & !((((1u64 << bw) - 1) as u64)
        << off)) | ((v & (((1u64 << bw) - 1) as u64)) << off) == word | ((v & (((1u64 << bw) - 1)
        as u64)) << off)) by (bit_vector)
        requires
            1 <= bw <= 63,
            off + bw <= 64,
    ;
}

/// Or commutes with reinterpreting signed longs.
pub proof fn lemma_or_signed(a: i64, b: u64)
    ensures
        (a | (b as i64)) as u64 == (a as u64) | b,
{
    assert((a | (b as i64)) as u64 == (a as u64) | b) by (bit_vector);
}

} // verus!
