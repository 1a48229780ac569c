//! Powers of two and multiples: the arithmetic of block sizes.

use vstd::arithmetic::power2::{lemma_pow2_pos, lemma_pow2_strictly_increases, lemma_pow2_unfold, pow2};
use vstd::prelude::*;

verus! {

/// `n` is a power of two.
pub open spec fn power_of_two(n: int) -> bool {
    exists|k: nat| n == #[trigger] pow2(k)
}

/// The least multiple of `align` that is not below `size`.
pub open spec fn rounded_up(size: int, align: int) -> int
    recommends
        size >= 0,
        align > 0,
{
    if size % align == 0 {
        size
    } else {
        size + align - size % align
    }
}

/// The least exponent whose power of two is not below `n`.
pub open spec fn ceil_log2(n: int) -> nat
    decreases n,
{
    if n <= 1 {
        0
    } else {
        1 + ceil_log2((n + 1) / 2)
    }
}

/// The least power of two that is not below `n`.
pub open spec fn next_power_of_two(n: int) -> int {
    pow2(ceil_log2(n)) as int
}

/// The next power of two is a power of two at or above the number, and no
/// power of two lies between the number and it.
pub proof fn lemma_next_power_of_two(n: int)
    ensures
        power_of_two(next_power_of_two(n)),
        n <= next_power_of_two(n),
        forall|k: nat| n <= #[trigger] pow2(k) ==> next_power_of_two(n) <= pow2(k),
    decreases n,
{
    lemma_pow2_pos(ceil_log2(n));
    if n <= 1 {
        assert(pow2(0) == 1) by {
            vstd::arithmetic::power2::lemma2_to64();
        }
        assert forall|k: nat| n <= #[trigger] pow2(k) implies next_power_of_two(n) <= pow2(k) by {
            lemma_pow2_pos(k);
        }
    } else {
        let half = (n + 1) / 2;
        lemma_next_power_of_two(half);
        lemma_pow2_unfold(ceil_log2(n));
        assert forall|k: nat| n <= #[trigger] pow2(k) implies next_power_of_two(n) <= pow2(k) by {
            if k == 0 {
                assert(pow2(0) == 1) by {
                    vstd::arithmetic::power2::lemma2_to64();
                }
            } else {
                lemma_pow2_unfold(k);
                assert(half <= pow2((k - 1) as nat));
            }
        }
    }
}

/// A power of two is its own next power of two.
pub proof fn lemma_next_power_of_two_fixed(k: nat)
    ensures
        next_power_of_two(pow2(k) as int) == pow2(k),
{
    lemma_next_power_of_two(pow2(k) as int);
    let found = ceil_log2(pow2(k) as int);
    if found < k {
        lemma_pow2_strictly_increases(found, k);
    }
}

/// Whether `x` is a power of two.
pub fn is_power_of_two(x: usize) -> (answer: bool)
    ensures
        answer <==> power_of_two(x as int),
{
    let mut power: usize = 1;
    let ghost mut exponent: nat = 0;
    proof {
        vstd::arithmetic::power2::lemma2_to64();
    }
    while power < x && power <= usize::MAX / 2
        invariant
            power == pow2(exponent),
            power > 0,
            forall|k: nat| k < exponent ==> #[trigger] pow2(k) < x,
        decreases usize::MAX - power,
    {
        proof {
            lemma_pow2_unfold(exponent + 1);
            assert forall|k: nat| k < exponent + 1 implies #[trigger] pow2(k) < x by {
                if k == exponent {
                }
            }
            exponent = exponent + 1;
        }
        power = power * 2;
    }
    proof {
        if power == x {
            assert(x == pow2(exponent));
        } else if power_of_two(x as int) {
            let k = choose|k: nat| x == #[trigger] pow2(k);
            if k < exponent {
                assert(pow2(k) < x);
            } else if k > exponent {
                lemma_pow2_strictly_increases(exponent, k);
                lemma_pow2_unfold(exponent + 1);
                if k > exponent + 1 {
                    lemma_pow2_strictly_increases(exponent + 1, k);
                }
                assert(x >= 2 * power);
            }
        }
    }
    power == x
}

/// The least power of two that is not below `x`, where a `usize` holds it.
pub fn checked_next_power_of_two(x: usize) -> (next: Option<usize>)
    ensures
        match next {
            Some(power) => power == next_power_of_two(x as int),
            None => next_power_of_two(x as int) > usize::MAX,
        },
{
    let mut power: usize = 1;
    let ghost mut exponent: nat = 0;
    proof {
        vstd::arithmetic::power2::lemma2_to64();
        lemma_next_power_of_two(x as int);
    }
    while power < x
        invariant
            power == pow2(exponent),
            power > 0,
            forall|k: nat| k < exponent ==> #[trigger] pow2(k) < x,
        decreases usize::MAX - power,
    {
        if power > usize::MAX / 2 {
            proof {
                let found = ceil_log2(x as int);
                lemma_next_power_of_two(x as int);
                if found <= exponent {
                    if found < exponent {
                        assert(pow2(found) < x);
                    }
                } else {
                    lemma_pow2_unfold(exponent + 1);
                    if found > exponent + 1 {
                        lemma_pow2_strictly_increases(exponent + 1, found);
                    }
                }
            }
            return None;
        }
        proof {
            lemma_pow2_unfold(exponent + 1);
            assert forall|k: nat| k < exponent + 1 implies #[trigger] pow2(k) < x by {
                if k == exponent {
                }
            }
            exponent = exponent + 1;
        }
        power = power * 2;
    }
    proof {
        let found = ceil_log2(x as int);
        lemma_next_power_of_two(x as int);
        assert(pow2(found) <= pow2(exponent));
        if found < exponent {
            assert(pow2(found) < x);
        } else if found > exponent {
            lemma_pow2_strictly_increases(exponent, found);
        }
    }
    Some(power)
}

/// The exponent of the power of two `x`.
pub fn exponent_of(x: usize) -> (exponent: u32)
    requires
        power_of_two(x as int),
    ensures
        x == pow2(exponent as nat),
        exponent < usize::BITS,
{
    let mut power: usize = 1;
    let mut exponent: u32 = 0;
    proof {
        vstd::arithmetic::power2::lemma2_to64();
    }
    let ghost target = choose|k: nat| x == #[trigger] pow2(k);
    proof {
        lemma_pow2_pos(target);
    }
    while power < x
        invariant
            power == pow2(exponent as nat),
            power > 0,
            x == pow2(target),
            exponent <= target,
            exponent < usize::BITS,
            power <= x,
        decreases x - power,
    {
        proof {
            if exponent as nat == target {
            } else {
                lemma_pow2_unfold((exponent + 1) as nat);
                if exponent + 1 < target {
                    lemma_pow2_strictly_increases((exponent + 1) as nat, target);
                }
                lemma_usize_bits(exponent);
            }
        }
        power = power * 2;
        exponent = exponent + 1;
    }
    exponent
}

/// A power of two that a `usize` holds has an exponent below the number of
/// its bits.
proof fn lemma_usize_bits(exponent: u32)
    requires
        exponent < usize::BITS,
        2 * pow2(exponent as nat) <= usize::MAX,
    ensures
        exponent + 1 < usize::BITS,
{
    vstd::arithmetic::power2::lemma2_to64();
    vstd::arithmetic::power2::lemma2_to64_rest();
    if exponent + 1 >= usize::BITS {
        if usize::BITS == 32 {
            assert(pow2(31) == 0x8000_0000);
        } else {
            assert(usize::BITS == 64);
            assert(pow2(63) == 0x8000_0000_0000_0000);
        }
    }
}

/// `size` rounded up to a multiple of `align`, where there is such a multiple
/// that a `usize` holds; `None` also for an `align` of zero.
pub fn round_up(size: usize, align: usize) -> (rounded: Option<usize>)
    ensures
        match rounded {
            Some(multiple) => align > 0 && multiple == rounded_up(size as int, align as int),
            None => align == 0 || rounded_up(size as int, align as int) > usize::MAX,
        },
{
    if align == 0 {
        return None;
    }
    let over = size % align;
    if over == 0 {
        Some(size)
    } else if size <= usize::MAX - (align - over) {
        Some(size + (align - over))
    } else {
        None
    }
}

} // verus!
