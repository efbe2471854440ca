//! Amounts of the native coin, bounded by `MAX_COIN`, with checked arithmetic.
use vstd::prelude::*;

verus! {

/// The total supply, in base units: no amount exceeds it.
pub const MAX_COIN: u64 = 10_000_000_000_000_000_000;

/// Why an amount could not be formed.
#[derive(Clone, Copy, Debug, PartialEq, Eq, Structural)]
pub enum CoinError {
    /// The result would be below zero.
    Negative,
    /// The result would exceed `MAX_COIN`; the value that was asked for.
    OutOfBound(u64),
    /// An addition overflowed the integer range.
    Overflow,
}

/// An amount in `[0, MAX_COIN]`.
#[derive(Clone, Copy, Debug, PartialEq, Eq, Structural)]
pub struct Coin {
    amount: u64,
}

impl View for Coin {
    type V = nat;

    closed spec fn view(&self) -> nat {
        self.amount as nat
    }
}

/// The sum of the amounts, as an unbounded integer.
pub open spec fn total(coins: Seq<Coin>) -> nat
    decreases coins.len(),
{
    if coins.len() == 0 {
        0
    } else {
        total(coins.drop_last()) + coins.last()@
    }
}

impl Coin {
    #[verifier::type_invariant]
    closed spec fn inv(self) -> bool {
        self.amount <= MAX_COIN
    }

    /// The amount `value`, if it does not exceed `MAX_COIN`.
    pub fn new(value: u64) -> (r: Result<Coin, CoinError>)
        ensures
            value <= MAX_COIN ==> r == Ok::<Coin, CoinError>(Coin::spec_of(value)),
            value > MAX_COIN ==> r == Err::<Coin, CoinError>(CoinError::OutOfBound(value)),
    {
        if value <= MAX_COIN {
            Ok(Coin { amount: value })
        } else {
            Err(CoinError::OutOfBound(value))
        }
    }

    /// The coin of amount `value` (meaningful for `value <= MAX_COIN`).
    pub closed spec fn spec_of(value: u64) -> Coin {
        Coin { amount: value }
    }

    /// The amount of `Coin::spec_of(v)` is `v`.
    pub proof fn lemma_spec_of(value: u64)
        ensures
            Coin::spec_of(value)@ == value,
    {
    }

    /// A coin is the coin of its own amount, which fits a `u64`.
    pub proof fn lemma_of_own_amount(c: Coin)
        ensures
            Coin::spec_of(c@ as u64) == c,
            c@ <= u64::MAX,
    {
    }

    /// The amount in base units.
    pub fn value(&self) -> (r: u64)
        ensures
            r == self@,
            r <= MAX_COIN,
    {
        proof {
            use_type_invariant(self);
        }
        self.amount
    }

    /// No coin.
    pub fn zero() -> (r: Coin)
        ensures
            r@ == 0,
    {
        Coin { amount: 0 }
    }

    /// The whole supply.
    pub fn max() -> (r: Coin)
        ensures
            r@ == MAX_COIN,
    {
        Coin { amount: MAX_COIN }
    }

    /// Checked addition: fails with `OutOfBound` when the sum exceeds `MAX_COIN`.
    pub fn checked_add(self, other: Coin) -> (r: Result<Coin, CoinError>)
        ensures
            self@ + other@ <= MAX_COIN <==> r is Ok,
            r matches Ok(c) ==> c@ == self@ + other@,
            r matches Err(e) ==> e is OutOfBound || e is Overflow,
    {
        proof {
            use_type_invariant(self);
            use_type_invariant(other);
        }
        let sum: u128 = self.amount as u128 + other.amount as u128;
        if sum <= MAX_COIN as u128 {
            Ok(Coin { amount: sum as u64 })
        } else if sum <= u64::MAX as u128 {
            Err(CoinError::OutOfBound(sum as u64))
        } else {
            Err(CoinError::Overflow)
        }
    }

    /// Checked subtraction: fails with `Negative` when `other` exceeds `self`.
    pub fn checked_sub(self, other: Coin) -> (r: Result<Coin, CoinError>)
        ensures
            other@ <= self@ <==> r is Ok,
            r matches Ok(c) ==> c@ == self@ - other@,
            r matches Err(e) ==> e == CoinError::Negative,
    {
        proof {
            use_type_invariant(self);
        }
        if other.amount <= self.amount {
            Ok(Coin { amount: self.amount - other.amount })
        } else {
            Err(CoinError::Negative)
        }
    }
}

/// Adds up the amounts; fails with `OutOfBound` as soon as the running sum
/// exceeds `MAX_COIN`, that is exactly when the total does.
pub fn sum_coins(coins: &Vec<Coin>) -> (r: Result<Coin, CoinError>)
    ensures
        total(coins@) <= MAX_COIN <==> r is Ok,
        r matches Ok(c) ==> c@ == total(coins@),
        r matches Err(e) ==> e is OutOfBound || e is Overflow,
{
    let mut acc = Coin::zero();
    let mut i: usize = 0;
    while i < coins.len()
        invariant
            i <= coins.len(),
            acc@ == total(coins@.take(i as int)),
        decreases coins.len() - i,
    {
        proof {
            assert(coins@.take(i as int + 1).drop_last() =~= coins@.take(i as int));
        }
        match acc.checked_add(coins[i]) {
            Ok(c) => {
                acc = c;
            },
            Err(e) => {
                proof {
                    lemma_total_prefix_le(coins@, i as int + 1);
                }
                return Err(e);
            },
        }
        i = i + 1;
    }
    proof {
        use_type_invariant(acc);
        assert(coins@.take(i as int) =~= coins@);
    }
    Ok(acc)
}

/// The total of a prefix never exceeds the total of the whole sequence.
pub proof fn lemma_total_prefix_le(coins: Seq<Coin>, k: int)
    requires
        0 <= k <= coins.len(),
    ensures
        total(coins.take(k)) <= total(coins),
    decreases coins.len(),
{
    if k < coins.len() {
        assert(coins.drop_last().take(k) =~= coins.take(k));
        lemma_total_prefix_le(coins.drop_last(), k);
    } else {
        assert(coins.take(k) =~= coins);
    }
}

} // verus!
