use vstd::arithmetic::div_mod::lemma_div_denominator;
use vstd::arithmetic::power2::{lemma2_to64, lemma_pow2_pos, lemma_pow2_unfold, pow2};
use vstd::prelude::*;

verus! {

/// Whether operand number `operand` of a gate on `width` qubits is 1 in the
/// joint basis state number `basis`.
///
/// The joint basis states of the operands are numbered in binary, with the
/// first operand as the most significant bit: among three operands, state 6
/// is 110, in which the first two operands are 1 and the third is 0.
pub open spec fn bit_of(width: nat, operand: nat, basis: nat) -> bool
    recommends
        operand < width,
{
    (basis / pow2((width - 1 - operand) as nat)) % 2 == 1
}

/// `rows` are the joint basis states of `width` operands in which operand
/// number `operand` is `bit`, each once and in ascending order: the
/// components of a joint amplitude vector that add up to the operand's
/// amplitude of `bit`.
pub open spec fn is_marginal(rows: Seq<usize>, width: nat, operand: nat, bit: bool) -> bool {
    &&& forall|i: int, j: int|
        0 <= i < j < rows.len() ==> (#[trigger] rows[i]) < (#[trigger] rows[j])
    &&& forall|i: int|
        0 <= i < rows.len() ==> (#[trigger] rows[i]) < pow2(width) && bit_of(
            width,
            operand,
            rows[i] as nat,
        ) == bit
    &&& forall|basis: usize|
        basis < pow2(width) && bit_of(width, operand, basis as nat) == bit ==> rows.contains(
            basis,
        )
}

/// Whether operand number `operand` of a gate on `width` qubits is 1 in the
/// joint basis state number `basis`.
pub fn basis_bit(width: usize, operand: usize, basis: usize) -> (bit: bool)
    requires
        operand < width,
    ensures
        bit == bit_of(width as nat, operand as nat, basis as nat),
{
    let shift = width - 1 - operand;
    let mut rest = basis;
    let mut i: usize = 0;
    proof {
        lemma2_to64();
    }
    while i < shift
        invariant
            i <= shift,
            rest == basis as int / pow2(i as nat) as int,
        decreases shift - i,
    {
        proof {
            lemma_pow2_pos(i as nat);
            lemma_pow2_unfold((i + 1) as nat);
            lemma_div_denominator(basis as int, pow2(i as nat) as int, 2);
        }
        rest = rest / 2;
        i += 1;
    }
    rest % 2 == 1
}

/// The number of joint basis states of `width` operands: two to the power of
/// `width`.
pub fn basis_states(width: usize) -> (size: usize)
    requires
        pow2(width as nat) <= usize::MAX,
    ensures
        size == pow2(width as nat),
{
    let mut size: usize = 1;
    let mut i: usize = 0;
    proof {
        lemma2_to64();
    }
    while i < width
        invariant
            i <= width,
            size == pow2(i as nat),
            pow2(width as nat) <= usize::MAX,
        decreases width - i,
    {
        proof {
            lemma_pow2_unfold((i + 1) as nat);
            lemma_pow2_grows((i + 1) as nat, width as nat);
        }
        size = size * 2;
        i += 1;
    }
    size
}

/// The joint basis states of `width` operands in which operand number
/// `operand` is `bit`, in ascending order.
pub fn marginal(width: usize, operand: usize, bit: bool) -> (rows: Vec<usize>)
    requires
        operand < width,
        pow2(width as nat) <= usize::MAX,
    ensures
        is_marginal(rows@, width as nat, operand as nat, bit),
{
    let size = basis_states(width);
    let mut rows: Vec<usize> = Vec::new();
    let mut basis: usize = 0;
    while basis < size
        invariant
            basis <= size,
            size == pow2(width as nat),
            operand < width,
            forall|i: int, j: int|
                0 <= i < j < rows.len() ==> (#[trigger] rows[i]) < (#[trigger] rows[j]),
            forall|i: int|
                0 <= i < rows.len() ==> (#[trigger] rows[i]) < basis && bit_of(
                    width as nat,
                    operand as nat,
                    rows[i] as nat,
                ) == bit,
            forall|b: usize|
                b < basis && bit_of(width as nat, operand as nat, b as nat) == bit
                    ==> rows@.contains(b),
        decreases size - basis,
    {
        if basis_bit(width, operand, basis) == bit {
            let ghost before = rows@;
            rows.push(basis);
            proof {
                assert forall|b: usize|
                    b < basis + 1 && bit_of(width as nat, operand as nat, b as nat)
                        == bit implies rows@.contains(b) by {
                    if b < basis {
                        let i = choose|i: int| 0 <= i < before.len() && before[i] == b;
                        assert(rows@[i] == b);
                    } else {
                        assert(rows@[before.len() as int] == b);
                    }
                }
            }
        }
        basis += 1;
    }
    rows
}

/// A larger power of two is at least as large.
proof fn lemma_pow2_grows(small: nat, large: nat)
    requires
        small <= large,
    ensures
        pow2(small) <= pow2(large),
    decreases large - small,
{
    if small < large {
        lemma_pow2_grows(small, (large - 1) as nat);
        lemma_pow2_unfold(large);
    }
}

/// Every joint basis state counts towards exactly one of the two amplitudes
/// of each operand: it is in one of the operand's two marginals and not in
/// the other.
pub proof fn lemma_marginals_part_the_basis(
    zeros: Seq<usize>,
    ones: Seq<usize>,
    width: nat,
    operand: nat,
    basis: usize,
)
    requires
        is_marginal(zeros, width, operand, false),
        is_marginal(ones, width, operand, true),
        basis < pow2(width),
    ensures
        zeros.contains(basis) != ones.contains(basis),
{
    if zeros.contains(basis) {
        let i = choose|i: int| 0 <= i < zeros.len() && zeros[i] == basis;
    }
    if ones.contains(basis) {
        let i = choose|i: int| 0 <= i < ones.len() && ones[i] == basis;
    }
}

/// The bits of the operands number the joint basis states: two states in
/// which every operand has the same bit are the same state.
pub proof fn lemma_bits_number_the_basis(width: nat, first: nat, second: nat)
    requires
        first < pow2(width),
        second < pow2(width),
        forall|operand: nat|
            operand < width ==> #[trigger] bit_of(width, operand, first) == bit_of(
                width,
                operand,
                second,
            ),
    ensures
        first == second,
    decreases width,
{
    lemma2_to64();
    if width > 0 {
        let less = (width - 1) as nat;
        lemma_pow2_unfold(width);
        assert(bit_of(width, less, first) == bit_of(width, less, second));
        assert forall|operand: nat| operand < less implies #[trigger] bit_of(
            less,
            operand,
            first / 2,
        ) == bit_of(less, operand, second / 2) by {
            let shift = (less - 1 - operand) as nat;
            lemma_pow2_pos(shift);
            lemma_pow2_unfold(shift + 1);
            lemma_div_denominator(first as int, 2, pow2(shift) as int);
            lemma_div_denominator(second as int, 2, pow2(shift) as int);
            assert(bit_of(width, operand, first) == bit_of(width, operand, second));
        }
        lemma_bits_number_the_basis(less, first / 2, second / 2);
        assert((first / 1) % 2 == 1 <==> (second / 1) % 2 == 1);
    }
}

} // verus!
