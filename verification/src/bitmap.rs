//! Bitmaps stored in bytes, lowest bit first.

use vstd::prelude::*;

verus! {

/// Whether bit `i` of the bitmap is set.
pub open spec fn bit_set(map: Seq<u8>, i: int) -> bool {
    map[i / 8] & (1u8 << ((i % 8) as u8)) != 0
}

/// Whether bit `i` of the bitmap is set.
pub fn get_bit(map: &[u8], i: usize) -> (r: bool)
    requires
        i / 8 < map@.len(),
    ensures
        r == bit_set(map@, i as int),
{
    (map[i / 8] & (1u8 << ((i % 8) as u8))) != 0
}

/// Clears bit `i` of the bitmap.
pub fn clear_bit(map: &mut Vec<u8>, i: usize)
    requires
        i / 8 < old(map)@.len(),
    ensures
        final(map)@.len() == old(map)@.len(),
        forall|j: int|
            0 <= j < 8 * old(map)@.len() ==> #[trigger] bit_set(final(map)@, j) == (j != i && bit_set(
                old(map)@,
                j,
            )),
{
    let byte: u8 = map[i / 8];
    let k: u8 = (i % 8) as u8;
    let cleared: u8 = byte & !(1u8 << k);
    map[i / 8] = cleared;
    proof {
        assert forall|j: int| 0 <= j < 8 * old(map)@.len() implies #[trigger] bit_set(map@, j) == (j
            != i && bit_set(old(map)@, j)) by {
            if j / 8 == i as int / 8 {
                let n = (j % 8) as u8;
                assert((byte & !(1u8 << k)) & (1u8 << n) == if n == k {
                    0u8
                } else {
                    byte & (1u8 << n)
                }) by (bit_vector)
                    requires
                        n < 8,
                        k < 8,
                ;
                assert(n == k <==> j == i);
            }
        }
    }
}

} // verus!
