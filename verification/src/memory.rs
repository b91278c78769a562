//! The byte memory of the board: one byte per cell that bacteria read and
//! overwrite as they move, and the rules by which a walker chooses its next
//! cell from eight output bits and marks the cell it lands on.

use vstd::prelude::*;
use vstd::arithmetic::power2::pow2;

verus! {

/// Initial byte of cell `i`.
pub open spec fn initial_byte(i: int) -> u8 {
    ((i * 37 + 13) % 256) as u8
}

/// The memory of `n` cells, cell `i` holding `(37 i + 13) mod 256`.
pub fn initial_memory(n: usize) -> (r: Vec<u8>)
    ensures
        r@.len() == n,
        forall|i: int| 0 <= i < n ==> #[trigger] r@[i] == initial_byte(i),
{
    let mut out: Vec<u8> = Vec::new();
    let mut i: usize = 0;
    while i < n
        invariant
            i <= n,
            out@.len() == i,
            forall|k: int| 0 <= k < i ==> #[trigger] out@[k] == initial_byte(k),
        decreases n - i,
    {
        let v = ((i % 256) * 37 + 13) % 256;
        assert(v == (i * 37 + 13) % 256) by (nonlinear_arith)
            requires
                v == ((i % 256) * 37 + 13) % 256,
        ;
        out.push(v as u8);
        i = i + 1;
    }
    out
}

/// The number whose binary digits are the eight `bits`, least significant
/// first.
pub open spec fn bits_value(bits: Seq<u8>) -> int {
    bits[0] as int + 2 * (bits[1] as int) + 4 * (bits[2] as int) + 8 * (bits[3] as int) + 16 * (
    bits[4] as int) + 32 * (bits[5] as int) + 64 * (bits[6] as int) + 128 * (bits[7] as int)
}

/// Whether every output bit is 0 or 1.
pub open spec fn binary(bits: Seq<u8>) -> bool {
    forall|i: int| 0 <= i < 8 ==> #[trigger] bits[i] <= 1
}

/// The cell a walker moves to: the value of its eight output bits (least
/// significant first) modulo the number of cells. When the bits are 0 or 1
/// and there are at least 256 cells, binary digit `i` of the cell is bit `i`.
pub fn cell_from_bits(bits: &[u8; 8], n_cells: usize) -> (r: usize)
    requires
        n_cells > 0,
    ensures
        r == bits_value(bits@) % n_cells as int,
        binary(bits@) && n_cells >= 256 ==> {
            &&& r < 256
            &&& r & 1 == bits@[0] as usize
            &&& (r >> 1usize) & 1 == bits@[1] as usize
            &&& (r >> 2usize) & 1 == bits@[2] as usize
            &&& (r >> 3usize) & 1 == bits@[3] as usize
            &&& (r >> 4usize) & 1 == bits@[4] as usize
            &&& (r >> 5usize) & 1 == bits@[5] as usize
            &&& (r >> 6usize) & 1 == bits@[6] as usize
            &&& (r >> 7usize) & 1 == bits@[7] as usize
        },
{
    let b0 = bits[0] as usize;
    let b1 = bits[1] as usize;
    let b2 = bits[2] as usize;
    let b3 = bits[3] as usize;
    let b4 = bits[4] as usize;
    let b5 = bits[5] as usize;
    let b6 = bits[6] as usize;
    let b7 = bits[7] as usize;
    let value: usize = b0 + 2 * b1 + 4 * b2 + 8 * b3 + 16 * b4 + 32 * b5 + 64 * b6 + 128 * b7;
    proof {
    if binary(bits@) {
        assert(bits@[0] <= 1 && bits@[1] <= 1 && bits@[2] <= 1 && bits@[3] <= 1);
        assert(bits@[4] <= 1 && bits@[5] <= 1 && bits@[6] <= 1 && bits@[7] <= 1);
        assert({
            &&& value < 256
            &&& value & 1 == b0
            &&& (value >> 1usize) & 1 == b1
            &&& (value >> 2usize) & 1 == b2
            &&& (value >> 3usize) & 1 == b3
            &&& (value >> 4usize) & 1 == b4
            &&& (value >> 5usize) & 1 == b5
            &&& (value >> 6usize) & 1 == b6
            &&& (value >> 7usize) & 1 == b7
        }) by (bit_vector)
            requires
                b0 <= 1, b1 <= 1, b2 <= 1, b3 <= 1, b4 <= 1, b5 <= 1, b6 <= 1, b7 <= 1,
                value == b0 + 2 * b1 + 4 * b2 + 8 * b3 + 16 * b4 + 32 * b5 + 64 * b6 + 128 * b7,
        ;
        if n_cells >= 256 {
            vstd::arithmetic::div_mod::lemma_small_mod(value as nat, n_cells as nat);
        }
    }
    }
    value % n_cells
}

/// The value of the output bits weighs bit `i` by 2^i: it is the sum of
/// `bits[i] * 2^i`, so setting bit `i` alone gives 2^i.
pub proof fn lemma_bit_weights(bits: Seq<u8>)
    requires
        bits.len() == 8,
    ensures
        bits_value(bits) == bits[0] as int * pow2(0) + bits[1] as int * pow2(1) + bits[2] as int * pow2(2)
            + bits[3] as int * pow2(3) + bits[4] as int * pow2(4) + bits[5] as int * pow2(5) + bits[6] as int
            * pow2(6) + bits[7] as int * pow2(7),
        forall|i: int|
            #![trigger pow2(i as nat)]
            0 <= i < 8 && (forall|k: int| 0 <= k < 8 ==> #[trigger] bits[k] == (if k == i { 1u8 } else { 0u8 }))
                ==> bits_value(bits) == pow2(i as nat),
{
    vstd::arithmetic::power2::lemma2_to64();
}

/// The byte a walker leaves on the cell it lands on: three times the cell
/// plus its age, modulo 256.
pub fn memory_mark(new_pos: usize, age: u32) -> (r: u8)
    requires
        new_pos * 3 + age <= usize::MAX,
    ensures
        r == (new_pos * 3 + age) % 256,
{
    ((new_pos * 3 + age as usize) % 256) as u8
}

} // verus!
