//! One bit per cell, packed into bytes least significant bit first.

use vstd::prelude::*;

verus! {

/// Whether bit `k` of `b` is set, counting from the least significant bit.
pub open spec fn bit_set(b: u8, k: u8) -> bool {
    (b >> k) & 1u8 == 1u8
}

/// `b` with bit `k` set to `on`, the other bits kept.
pub open spec fn with_bit(b: u8, k: u8, on: bool) -> u8 {
    if on {
        b | (1u8 << k)
    } else {
        b & !(1u8 << k)
    }
}

/// Number of bytes that hold `n` bits.
pub open spec fn byte_len(n: nat) -> nat {
    (n + 7) / 8
}

/// Bit `i` of a packed buffer: bit `i % 8` of byte `i / 8`.
pub open spec fn packed_bit(bytes: Seq<u8>, i: int) -> bool {
    bit_set(bytes[i / 8], (i % 8) as u8)
}

/// `bytes` is the packed form of `cells`: just enough bytes, one bit per cell,
/// and the bits past the last cell clear.
pub open spec fn packs(bytes: Seq<u8>, cells: Seq<bool>) -> bool {
    &&& bytes.len() == byte_len(cells.len())
    &&& forall|i: int|
        0 <= i < 8 * bytes.len() ==> #[trigger] packed_bit(bytes, i) == (i < cells.len() && cells[i])
}

proof fn lemma_mask_test(b: u8, k: u8)
    by (bit_vector)
    requires
        k < 8,
    ensures
        (b & (1u8 << k) != 0) == bit_set(b, k),
{
}

proof fn lemma_with_bit(b: u8, k: u8, m: u8, on: bool)
    by (bit_vector)
    requires
        k < 8,
        m < 8,
    ensures
        bit_set(with_bit(b, k, on), m) == if m == k {
            on
        } else {
            bit_set(b, m)
        },
{
}

proof fn lemma_zero_byte(k: u8)
    by (bit_vector)
    ensures
        !bit_set(0u8, k),
{
}

proof fn lemma_byte_ext(a: u8, b: u8)
    by (bit_vector)
    requires
        bit_set(a, 0) == bit_set(b, 0),
        bit_set(a, 1) == bit_set(b, 1),
        bit_set(a, 2) == bit_set(b, 2),
        bit_set(a, 3) == bit_set(b, 3),
        bit_set(a, 4) == bit_set(b, 4),
        bit_set(a, 5) == bit_set(b, 5),
        bit_set(a, 6) == bit_set(b, 6),
        bit_set(a, 7) == bit_set(b, 7),
    ensures
        a == b,
{
}

/// A buffer of zero bytes packs an all-dead sequence of cells.
pub proof fn lemma_zeros_pack(bytes: Seq<u8>, n: nat)
    requires
        bytes.len() == byte_len(n),
        forall|j: int| 0 <= j < bytes.len() ==> bytes[j] == 0u8,
    ensures
        packs(bytes, Seq::new(n, |i: int| false)),
{
    assert forall|i: int| 0 <= i < 8 * bytes.len() implies #[trigger] packed_bit(bytes, i)
        == (i < n && Seq::new(n, |i: int| false)[i]) by {
        lemma_zero_byte((i % 8) as u8);
    }
}

proof fn lemma_bit_of_byte(a: Seq<u8>, b: Seq<u8>, cells: Seq<bool>, j: int, k: u8)
    requires
        packs(a, cells),
        packs(b, cells),
        0 <= j < a.len(),
        k < 8,
    ensures
        bit_set(a[j], k) == bit_set(b[j], k),
{
    let i = 8 * j + k;
    assert(i / 8 == j);
    assert(i % 8 == k);
    assert(packed_bit(a, i) == packed_bit(b, i));
}

/// The packed form of a sequence of cells is unique.
pub proof fn lemma_packs_unique(a: Seq<u8>, b: Seq<u8>, cells: Seq<bool>)
    requires
        packs(a, cells),
        packs(b, cells),
    ensures
        a == b,
{
    assert forall|j: int| 0 <= j < a.len() implies a[j] == b[j] by {
        lemma_bit_of_byte(a, b, cells, j, 0);
        lemma_bit_of_byte(a, b, cells, j, 1);
        lemma_bit_of_byte(a, b, cells, j, 2);
        lemma_bit_of_byte(a, b, cells, j, 3);
        lemma_bit_of_byte(a, b, cells, j, 4);
        lemma_bit_of_byte(a, b, cells, j, 5);
        lemma_bit_of_byte(a, b, cells, j, 6);
        lemma_bit_of_byte(a, b, cells, j, 7);
        lemma_byte_ext(a[j], b[j]);
    }
    assert(a =~= b);
}

/// Reads bit `idx` of a packed buffer.
pub fn get_cell(arr: &Vec<u8>, idx: usize) -> (r: bool)
    requires
        idx / 8 < arr.len(),
    ensures
        r == packed_bit(arr@, idx as int),
{
    let k = (idx % 8) as u8;
    let b = arr[idx / 8];
    proof {
        lemma_mask_test(b, k);
    }
    b & (1u8 << k) != 0
}

/// Sets bit `idx` of a packed buffer to `alive`, leaving every other bit as it was.
pub fn set_cell(arr: &mut Vec<u8>, idx: usize, alive: bool)
    requires
        idx / 8 < old(arr).len(),
    ensures
        final(arr)@.len() == old(arr)@.len(),
        packed_bit(final(arr)@, idx as int) == alive,
        forall|j: int|
            0 <= j < 8 * old(arr)@.len() && j != idx ==> #[trigger] packed_bit(final(arr)@, j)
                == packed_bit(old(arr)@, j),
{
    let pos = idx / 8;
    let k = (idx % 8) as u8;
    let b = arr[pos];
    let nb = if alive {
        b | (1u8 << k)
    } else {
        b & !(1u8 << k)
    };
    assert(nb == with_bit(b, k, alive));
    arr.set(pos, nb);
    proof {
        lemma_with_bit(b, k, k, alive);
        assert forall|j: int| 0 <= j < 8 * old(arr)@.len() && j != idx implies #[trigger] packed_bit(
            arr@,
            j,
        ) == packed_bit(old(arr)@, j) by {
            if j / 8 == pos {
                lemma_with_bit(b, k, (j % 8) as u8, alive);
            }
        }
    }
}

} // verus!
