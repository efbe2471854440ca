//! Transfer transactions, and how a wallet picks the outputs it spends:
//! largest first, until the outputs and the fee are covered.
use vstd::prelude::*;
use crate::coin::{sum_coins, total, Coin, MAX_COIN};
use crate::error::{Error, ErrorKind};
use crate::types::{ExtendedAddr, TxOut, TxoPointer};

verus! {

/// The attributes of a transaction: the chain it is meant for.
#[derive(Clone, Copy, Debug, PartialEq, Eq)]
pub struct TxAttributes {
    pub chain_hex_id: u8,
}

impl TxAttributes {
    pub fn new(chain_hex_id: u8) -> (r: TxAttributes)
        ensures
            r.chain_hex_id == chain_hex_id,
    {
        TxAttributes { chain_hex_id }
    }
}

/// A transfer: the outputs it spends, the outputs it creates, its attributes.
#[derive(Debug)]
pub struct Transaction {
    pub inputs: Vec<TxoPointer>,
    pub outputs: Vec<TxOut>,
    pub attributes: TxAttributes,
}

impl Transaction {
    /// A transaction with no input and no output, for the chain `0`.
    pub fn new() -> (r: Transaction)
        ensures
            r.inputs@.len() == 0,
            r.outputs@.len() == 0,
            r.attributes.chain_hex_id == 0,
    {
        Transaction { inputs: Vec::new(), outputs: Vec::new(), attributes: TxAttributes { chain_hex_id: 0 } }
    }
}

/// How inputs are chosen among the unspent outputs.
#[derive(Clone, Copy, Debug, PartialEq, Eq)]
pub enum InputSelectionStrategy {
    /// The outputs of largest value first.
    LargestFirst,
}

/// The value of the unspent output at `i`.
pub open spec fn value_at(u: Seq<(TxoPointer, TxOut)>, i: int) -> nat {
    u[i].1.value@
}

/// The total value of the unspent outputs at the positions `sel`.
pub open spec fn selected_total(u: Seq<(TxoPointer, TxOut)>, sel: Seq<usize>) -> nat
    decreases sel.len(),
{
    if sel.len() == 0 {
        0
    } else {
        selected_total(u, sel.drop_last()) + value_at(u, sel.last() as int)
    }
}

/// The total value of the unspent outputs at positions from `i` on that
/// are not marked in `used`.
pub open spec fn unused_total(u: Seq<(TxoPointer, TxOut)>, used: Seq<bool>, i: int) -> nat
    decreases u.len() - i,
{
    if i < 0 || i >= u.len() {
        0
    } else {
        (if used[i] {
            0
        } else {
            value_at(u, i)
        }) + unused_total(u, used, i + 1)
    }
}

/// The total value of all the unspent outputs.
pub open spec fn unspent_total(u: Seq<(TxoPointer, TxOut)>) -> nat {
    unused_total(u, Seq::new(u.len(), |i: int| false), 0)
}

/// `sel` picks outputs of `u` largest first, until their total reaches
/// `needed`: distinct positions; none of the outputs left out is worth more
/// than one picked; picked in order of value; and without the last pick
/// the total would fall short.
pub open spec fn largest_first(u: Seq<(TxoPointer, TxOut)>, sel: Seq<usize>, needed: nat) -> bool {
    &&& forall|k: int| 0 <= k < sel.len() ==> sel[k] < u.len()
    &&& forall|k: int, l: int| 0 <= k < l < sel.len() ==> sel[k] != sel[l]
    &&& forall|k: int, j: int|
        0 <= k < sel.len() && 0 <= j < u.len() && !sel.contains(j as usize) ==> #[trigger] value_at(
            u,
            j,
        ) <= #[trigger] value_at(u, sel[k] as int)
    &&& forall|k: int, l: int|
        0 <= k < l < sel.len() ==> value_at(u, sel[l] as int) <= value_at(u, sel[k] as int)
    &&& selected_total(u, sel) >= needed
    &&& sel.len() > 0 ==> selected_total(u, sel.drop_last()) < needed
}

proof fn lemma_unused_total_update(u: Seq<(TxoPointer, TxOut)>, used: Seq<bool>, p: int, i: int)
    requires
        used.len() == u.len(),
        0 <= p < u.len(),
        !used[p],
        0 <= i,
    ensures
        p >= i ==> unused_total(u, used.update(p, true), i) + value_at(u, p) == unused_total(
            u,
            used,
            i,
        ),
        p < i ==> unused_total(u, used.update(p, true), i) == unused_total(u, used, i),
    decreases u.len() - i,
{
    if i < u.len() {
        lemma_unused_total_update(u, used, p, i + 1);
    }
}

/// The number of marked positions from `i` on.
spec fn used_count(used: Seq<bool>, i: int) -> nat
    decreases used.len() - i,
{
    if i < 0 || i >= used.len() {
        0
    } else {
        (if used[i] {
            1nat
        } else {
            0nat
        }) + used_count(used, i + 1)
    }
}

proof fn lemma_used_count(used: Seq<bool>, p: int, i: int)
    requires
        0 <= p < used.len(),
        !used[p],
        0 <= i <= p,
    ensures
        used_count(used, i) < used.len() - i,
        used_count(used.update(p, true), i) == used_count(used, i) + 1,
    decreases used.len() - i,
{
    lemma_used_count_bound(used, i + 1);
    lemma_used_count_bound(used.update(p, true), i + 1);
    if i < p {
        lemma_used_count(used, p, i + 1);
    } else {
        lemma_used_count_same(used, used.update(p, true), i + 1);
    }
}

proof fn lemma_used_count_bound(used: Seq<bool>, i: int)
    requires
        0 <= i,
    ensures
        i <= used.len() ==> used_count(used, i) <= used.len() - i,
    decreases used.len() - i,
{
    if i < used.len() {
        lemma_used_count_bound(used, i + 1);
    }
}

proof fn lemma_used_count_same(a: Seq<bool>, b: Seq<bool>, i: int)
    requires
        a.len() == b.len(),
        forall|j: int| i <= j < a.len() ==> a[j] == b[j],
    ensures
        used_count(a, i) == used_count(b, i),
    decreases a.len() - i,
{
    if 0 <= i < a.len() {
        lemma_used_count_same(a, b, i + 1);
    }
}

proof fn lemma_none_used(used: Seq<bool>, i: int)
    requires
        forall|j: int| 0 <= j < used.len() ==> !used[j],
    ensures
        used_count(used, i) == 0,
    decreases used.len() - i,
{
    if 0 <= i < used.len() {
        lemma_none_used(used, i + 1);
    }
}

proof fn lemma_all_used(u: Seq<(TxoPointer, TxOut)>, used: Seq<bool>, i: int)
    requires
        used.len() == u.len(),
        forall|j: int| 0 <= j < u.len() ==> used[j],
    ensures
        unused_total(u, used, i) == 0,
    decreases u.len() - i,
{
    if 0 <= i < u.len() {
        lemma_all_used(u, used, i + 1);
    }
}

/// The positions of the unspent outputs to spend, largest first, until
/// `needed` is covered; `None` when all of them together fall short.
pub fn select_inputs(unspent: &Vec<(TxoPointer, TxOut)>, needed: u64) -> (r: Option<(Vec<usize>, u128)>)
    ensures
        r is Some <==> unspent_total(unspent@) >= needed,
        r matches Some((sel, sum)) ==> largest_first(unspent@, sel@, needed as nat) && sum
            == selected_total(unspent@, sel@),
{
    let n = unspent.len();
    let mut used: Vec<bool> = Vec::new();
    let mut i: usize = 0;
    while i < n
        invariant
            i <= n,
            n == unspent@.len(),
            used@ == Seq::new(i as nat, |j: int| false),
        decreases n - i,
    {
        used.push(false);
        i = i + 1;
        proof {
            assert(used@ =~= Seq::new(i as nat, |j: int| false));
        }
    }
    let mut sel: Vec<usize> = Vec::new();
    let mut sum: u128 = 0;
    proof {
        lemma_used_count_same(used@, Seq::new(n as nat, |j: int| false), 0);
        lemma_none_used(Seq::new(n as nat, |j: int| false), 0);
    }
    let ghost all = unspent_total(unspent@);
    while sum < needed as u128
        invariant
            n == unspent@.len(),
            used@.len() == n,
            all == unspent_total(unspent@),
            sum == selected_total(unspent@, sel@),
            sum + unused_total(unspent@, used@, 0) == all,
            sel@.len() <= n,
            used_count(used@, 0) == sel@.len(),
            sum <= sel@.len() * MAX_COIN,
            forall|j: int| 0 <= j < n ==> (used@[j] <==> sel@.contains(j as usize)),
            forall|k: int| 0 <= k < sel@.len() ==> sel@[k] < n,
            forall|k: int, l: int| 0 <= k < l < sel@.len() ==> sel@[k] != sel@[l],
            forall|k: int, j: int|
                0 <= k < sel@.len() && 0 <= j < n && !used@[j] ==> #[trigger] value_at(unspent@, j)
                    <= #[trigger] value_at(unspent@, sel@[k] as int),
            forall|k: int, l: int|
                0 <= k < l < sel@.len() ==> value_at(unspent@, sel@[l] as int) <= value_at(
                    unspent@,
                    sel@[k] as int,
                ),
            sel@.len() > 0 ==> selected_total(unspent@, sel@.drop_last()) < needed,
        decreases n - sel@.len(),
    {
        let mut best: Option<usize> = None;
        let mut j: usize = 0;
        while j < n
            invariant
                j <= n,
                n == unspent@.len(),
                used@.len() == n,
                best matches Some(b) ==> b < j && !used@[b as int],
                best is None ==> forall|k: int| 0 <= k < j ==> used@[k],
                best matches Some(b) ==> forall|k: int|
                    0 <= k < j && !used@[k] ==> value_at(unspent@, k) <= value_at(unspent@, b as int),
            decreases n - j,
        {
            if !used[j] {
                match best {
                    None => {
                        best = Some(j);
                    },
                    Some(b) => {
                        if unspent[j].1.value.value() > unspent[b].1.value.value() {
                            best = Some(j);
                        }
                    },
                }
            }
            j = j + 1;
        }
        match best {
            None => {
                proof {
                    lemma_all_used(unspent@, used@, 0);
                }
                return None;
            },
            Some(b) => {
                let c = unspent[b].1.value;
                let v = c.value();
                proof {
                    Coin::lemma_of_own_amount(c);
                    lemma_unused_total_update(unspent@, used@, b as int, 0);
                    lemma_used_count(used@, b as int, 0);
                }
                let ghost old_sel = sel@;
                let ghost old_used = used@;
                used.set(b, true);
                sel.push(b);
                sum = sum + v as u128;
                proof {
                    assert(sel@.drop_last() =~= old_sel);
                    assert forall|j: int| 0 <= j < n implies (used@[j] <==> sel@.contains(j as usize)) by {
                        if j == b as int {
                            assert(sel@[sel@.len() - 1] == b);
                        } else {
                            if sel@.contains(j as usize) {
                                let k = choose|k: int| 0 <= k < sel@.len() && sel@[k] == j as usize;
                                assert(old_sel.contains(j as usize)) by {
                                    assert(old_sel[k] == j as usize);
                                }
                            }
                            if old_sel.contains(j as usize) {
                                let k = choose|k: int| 0 <= k < old_sel.len() && old_sel[k] == j as usize;
                                assert(sel@[k] == j as usize);
                            }
                        }
                    }
                    assert forall|k: int, l: int| 0 <= k < l < sel@.len() implies sel@[k] != sel@[l] by {
                        if l == sel@.len() - 1 {
                            assert(old_sel.contains(sel@[k]));
                        }
                    }
                    assert((sel@.len() - 1) * MAX_COIN + MAX_COIN == sel@.len() * MAX_COIN) by (nonlinear_arith);
                }
            },
        }
    }
    Some((sel, sum))
}

/// The values of the outputs.
pub open spec fn output_values(outputs: Seq<TxOut>) -> Seq<Coin> {
    outputs.map_values(|o: TxOut| o.value)
}

/// What the inputs must cover: the outputs and the fee, if that stays
/// within `MAX_COIN`.
pub open spec fn needed_of(outputs: Seq<TxOut>, fee: Coin) -> Option<nat> {
    if total(output_values(outputs)) + fee@ <= MAX_COIN {
        Some(total(output_values(outputs)) + fee@)
    } else {
        None
    }
}

/// The pointers of the unspent outputs at the positions `sel`.
pub open spec fn pointers_of(u: Seq<(TxoPointer, TxOut)>, sel: Seq<usize>) -> Seq<TxoPointer> {
    sel.map_values(|i: usize| u[i as int].0)
}

/// The change output: none when nothing is left over.
pub open spec fn change_outputs(return_address: ExtendedAddr, change: nat) -> Seq<TxOut> {
    if change == 0 {
        Seq::empty()
    } else {
        seq![TxOut { address: return_address, value: Coin::spec_of(change as u64), valid_from: None }]
    }
}

/// `tx` pays `outputs` from inputs picked among `u` largest first until
/// `needed` is covered, with the change going back to `return_address`.
pub open spec fn pays(
    u: Seq<(TxoPointer, TxOut)>,
    outputs: Seq<TxOut>,
    attributes: TxAttributes,
    needed: nat,
    return_address: ExtendedAddr,
    tx: Transaction,
) -> bool {
    exists|sel: Seq<usize>|
        largest_first(u, sel, needed) && tx.inputs@ == pointers_of(u, sel) && tx.outputs@ == outputs
            + change_outputs(return_address, (selected_total(u, sel) - needed) as nat)
            && tx.attributes == attributes
}

/// What building a transaction from `u` gives: `BalanceAdditionError` when
/// the outputs and the fee exceed `MAX_COIN`, `InsufficientBalance` when `u`
/// falls short, else the transaction that pays them.
pub open spec fn build_outcome(
    u: Seq<(TxoPointer, TxOut)>,
    outputs: Seq<TxOut>,
    attributes: TxAttributes,
    fee: Coin,
    return_address: ExtendedAddr,
    r: Result<Transaction, Error>,
) -> bool {
    match needed_of(outputs, fee) {
        None => r matches Err(e) && e.kind == ErrorKind::BalanceAdditionError,
        Some(needed) => if unspent_total(u) >= needed {
            r matches Ok(tx) && pays(u, outputs, attributes, needed, return_address, tx)
        } else {
            r matches Err(e) && e.kind == ErrorKind::InsufficientBalance
        },
    }
}

/// The transaction that pays `outputs` and `fee` from `unspent`, picked
/// largest first, and returns what is left over to `return_address`.
/// Fails with `BalanceAdditionError` when outputs and fee exceed
/// `MAX_COIN`, and with `InsufficientBalance` when `unspent` falls short.
pub fn build_transaction(
    unspent: &Vec<(TxoPointer, TxOut)>,
    outputs: Vec<TxOut>,
    attributes: TxAttributes,
    fee: Coin,
    return_address: ExtendedAddr,
) -> (r: Result<Transaction, Error>)
    ensures
        build_outcome(unspent@, outputs@, attributes, fee, return_address, r),
{
    let mut values: Vec<Coin> = Vec::new();
    let mut i: usize = 0;
    while i < outputs.len()
        invariant
            i <= outputs.len(),
            values@ == output_values(outputs@.take(i as int)),
        decreases outputs.len() - i,
    {
        values.push(outputs[i].value);
        i = i + 1;
        proof {
            assert(values@ =~= output_values(outputs@.take(i as int)));
        }
    }
    proof {
        assert(outputs@.take(i as int) =~= outputs@);
    }
    let out_total = match sum_coins(&values) {
        Ok(c) => c,
        Err(_) => return Err(Error::new(ErrorKind::BalanceAdditionError)),
    };
    let needed = match out_total.checked_add(fee) {
        Ok(c) => c,
        Err(_) => return Err(Error::new(ErrorKind::BalanceAdditionError)),
    };
    let (sel, sum) = match select_inputs(unspent, needed.value()) {
        Some(x) => x,
        None => return Err(Error::new(ErrorKind::InsufficientBalance)),
    };
    let mut inputs: Vec<TxoPointer> = Vec::new();
    let mut k: usize = 0;
    while k < sel.len()
        invariant
            k <= sel.len(),
            forall|j: int| 0 <= j < sel@.len() ==> sel@[j] < unspent@.len(),
            inputs@ == pointers_of(unspent@, sel@.take(k as int)),
        decreases sel.len() - k,
    {
        inputs.push(unspent[sel[k]].0);
        k = k + 1;
        proof {
            assert(inputs@ =~= pointers_of(unspent@, sel@.take(k as int)));
        }
    }
    proof {
        assert(sel@.take(k as int) =~= sel@);
    }
    let mut all_outputs = outputs;
    let needed_u = needed.value() as u128;
    if sum > needed_u {
        let last = sel[sel.len() - 1];
        let last_value = unspent[last].1.value.value();
        proof {
            assert(sel@.last() == last);
            assert(sum - needed_u < last_value);
        }
        let change_value = (sum - needed_u) as u64;
        let change = Coin::new(change_value);
        match change {
            Ok(c) => {
                proof {
                    Coin::lemma_spec_of(change_value);
                }
                all_outputs.push(TxOut { address: return_address, value: c, valid_from: None });
            },
            Err(_) => {},
        }
    }
    let tx = Transaction { inputs, outputs: all_outputs, attributes };
    proof {
        assert(largest_first(unspent@, sel@, needed@));
        assert(tx.outputs@ == outputs@ + change_outputs(
            return_address,
            (selected_total(unspent@, sel@) - needed@) as nat,
        ));
    }
    Ok(tx)
}

} // verus!
