//! The encoding of the ledger's records, and its exact inverse.
use vstd::prelude::*;
use crate::balance::{BalanceChange, BlockTime, TransactionChange};
use crate::codec::{
    compact_bytes, le_bytes, le_value, lemma_compact_round_trip, lemma_le_round_trip,
    parse_compact, pow256, push_compact, push_le, read_compact, read_le,
};
use crate::transaction::Transaction;
use crate::types::TxOut;
use crate::coin::{Coin, MAX_COIN};
use crate::types::{ExtendedAddr, TxoPointer, H256};

verus! {

/// A 32-byte hash: its bytes.
pub open spec fn enc_h256(h: H256) -> Seq<u8> {
    h@
}

/// A coin: its amount as eight little-endian bytes.
pub open spec fn enc_coin(c: Coin) -> Seq<u8> {
    le_bytes(c@, 8)
}

/// An address: the tag 0 and the root hash.
pub open spec fn enc_addr(a: ExtendedAddr) -> Seq<u8> {
    seq![0u8] + a.root_spec()
}

/// A balance change: the tag 0 (incoming) or 1 (outgoing) and the amount.
pub open spec fn enc_balance_change(b: BalanceChange) -> Seq<u8> {
    match b {
        BalanceChange::Incoming(c) => seq![0u8] + enc_coin(c),
        BalanceChange::Outgoing(c) => seq![1u8] + enc_coin(c),
    }
}

/// An output pointer: the transaction id and the index as two bytes.
pub open spec fn enc_txo_pointer(p: TxoPointer) -> Seq<u8> {
    p.id@ + le_bytes(p.index as nat, 2)
}

/// The UTF-8 bytes of the RFC 3339 text of an instant, given as seconds
/// since the epoch and nanoseconds; `None` outside the calendar's range.
pub uninterp spec fn rfc3339_of(seconds: int, nanos: int) -> Option<Seq<u8>>;

/// The instant that an RFC 3339 text names, as seconds since the epoch and
/// nanoseconds; `None` when the bytes are not such a text.
pub uninterp spec fn rfc3339_time(text: Seq<u8>) -> Option<(i64, u32)>;

/// Relies on chrono's `DateTime::<Utc>::from_timestamp` and
/// `DateTime::to_rfc3339`: the RFC 3339 text of the instant, or `None` when
/// chrono cannot represent it.
#[verifier::external_body]
fn format_rfc3339(seconds: i64, nanos: u32) -> (r: Option<Vec<u8>>)
    ensures
        match rfc3339_of(seconds as int, nanos as int) {
            Some(text) => r matches Some(v) && v@ == text,
            None => r is None,
        },
{
    match chrono::DateTime::<chrono::Utc>::from_timestamp(seconds, nanos) {
        Some(t) => Some(t.to_rfc3339().into_bytes()),
        None => None,
    }
}

/// Relies on chrono's `FromStr` for `DateTime<Utc>` (after
/// `std::str::from_utf8`): the instant that the text names, as its
/// timestamp and sub-second nanoseconds.
#[verifier::external_body]
fn parse_rfc3339(text: &[u8]) -> (r: Option<(i64, u32)>)
    ensures
        r == rfc3339_time(text@),
{
    let s = match std::str::from_utf8(text) {
        Ok(s) => s,
        Err(_) => return None,
    };
    match <chrono::DateTime<chrono::Utc> as std::str::FromStr>::from_str(s) {
        Ok(t) => Some((t.timestamp(), t.timestamp_subsec_nanos())),
        Err(_) => None,
    }
}

/// The RFC 3339 text of a block time.
pub open spec fn time_text(t: BlockTime) -> Option<Seq<u8>> {
    rfc3339_of(t.seconds as int, t.nanos as int)
}

/// A block time has a text that a compact length can prefix.
pub open spec fn encodable_time(t: BlockTime) -> bool {
    time_text(t) matches Some(text) && text.len() <= u32::MAX
}

/// A block time (when encodable): its RFC 3339 text, after its compact length.
pub open spec fn enc_block_time(t: BlockTime) -> Seq<u8> {
    let text = time_text(t)->Some_0;
    compact_bytes(text.len() as u32) + text
}

/// A transaction change: its fields in order.
pub open spec fn enc_transaction_change(t: TransactionChange) -> Seq<u8> {
    enc_h256(t.transaction_id) + enc_addr(t.address) + enc_balance_change(t.balance_change)
        + le_bytes(t.block_height as nat, 8) + enc_block_time(t.block_time)
}

/// The 32-byte array at the front of `s`, if `s` is long enough.
pub open spec fn parse_h256(s: Seq<u8>) -> Option<(H256, nat)> {
    if s.len() < 32 {
        None
    } else {
        Some((choose|h: H256| h@ == s.take(32), 32))
    }
}

/// The coin at the front of `s`: eight bytes of an amount within bounds.
pub open spec fn parse_coin(s: Seq<u8>) -> Option<(Coin, nat)> {
    if s.len() < 8 || le_value(s.take(8)) > MAX_COIN {
        None
    } else {
        Some((Coin::spec_of(le_value(s.take(8)) as u64), 8))
    }
}

/// The address at the front of `s`.
pub open spec fn parse_addr(s: Seq<u8>) -> Option<(ExtendedAddr, nat)> {
    if s.len() == 0 || s[0] != 0 {
        None
    } else {
        match parse_h256(s.drop_first()) {
            Some((h, k)) => Some((ExtendedAddr::OrTree(h), k + 1)),
            None => None,
        }
    }
}

/// The balance change at the front of `s`.
pub open spec fn parse_balance_change(s: Seq<u8>) -> Option<(BalanceChange, nat)> {
    if s.len() == 0 || s[0] > 1 {
        None
    } else {
        match parse_coin(s.drop_first()) {
            Some((c, k)) => Some(
                (
                    if s[0] == 0 {
                        BalanceChange::Incoming(c)
                    } else {
                        BalanceChange::Outgoing(c)
                    },
                    k + 1,
                ),
            ),
            None => None,
        }
    }
}

/// The output pointer at the front of `s`.
pub open spec fn parse_txo_pointer(s: Seq<u8>) -> Option<(TxoPointer, nat)> {
    match parse_h256(s) {
        Some((h, k)) => if s.len() < 34 {
            None
        } else {
            Some((TxoPointer { id: h, index: le_value(s.subrange(32, 34)) as u16 }, 34))
        },
        None => None,
    }
}

/// The block time at the front of `s`: a length-prefixed text that must
/// name an instant.
pub open spec fn parse_block_time(s: Seq<u8>) -> Option<(BlockTime, nat)> {
    match parse_compact(s) {
        None => None,
        Some((len, k)) => if s.len() < k + len {
            None
        } else {
            match rfc3339_time(s.subrange(k as int, k + len)) {
                Some((seconds, nanos)) => Some(
                    (BlockTime { seconds, nanos }, (k + len) as nat),
                ),
                None => None,
            }
        },
    }
}

/// The transaction change at the front of `s`.
pub open spec fn parse_transaction_change(s: Seq<u8>) -> Option<(TransactionChange, nat)> {
    match parse_h256(s) {
        None => None,
        Some((id, k1)) => match parse_addr(s.skip(k1 as int)) {
            None => None,
            Some((addr, k2)) => match parse_balance_change(s.skip((k1 + k2) as int)) {
                None => None,
                Some((bc, k3)) => if s.len() < k1 + k2 + k3 + 8 {
                    None
                } else {
                    let height = le_value(s.subrange((k1 + k2 + k3) as int, (k1 + k2 + k3 + 8) as int)) as u64;
                    match parse_block_time(s.skip((k1 + k2 + k3 + 8) as int)) {
                        None => None,
                        Some((t, k5)) => Some(
                            (
                                TransactionChange {
                                    transaction_id: id,
                                    address: addr,
                                    balance_change: bc,
                                    block_height: height,
                                    block_time: t,
                                },
                                k1 + k2 + k3 + 8 + k5,
                            ),
                        ),
                    }
                },
            },
        },
    }
}

} // verus!
verus! {

/// `r` is what reading `p`'s value at `pos` gives: the value and the
/// position after it, or nothing.
pub open spec fn read_as<T>(p: Option<(T, nat)>, r: Option<(T, usize)>, pos: usize) -> bool {
    match p {
        Some((x, k)) => r == Some((x, (pos + k) as usize)),
        None => r is None,
    }
}

/// Appends the bytes of a 32-byte hash.
pub fn encode_h256(h: &H256, out: &mut Vec<u8>)
    ensures
        final(out)@ == old(out)@ + enc_h256(*h),
{
    out.extend_from_slice(h.as_slice());
}

/// Reads a 32-byte hash at `pos`.
pub fn decode_h256(b: &[u8], pos: usize) -> (r: Option<(H256, usize)>)
    requires
        pos <= b@.len(),
    ensures
        read_as(parse_h256(b@.skip(pos as int)), r, pos),
{
    if b.len() - pos < 32 {
        return None;
    }
    let blen: usize = b.len();
    let mut a: H256 = [0u8; 32];
    let mut i: usize = 0;
    while i < 32
        invariant
            i <= 32,
            blen == b@.len(),
            pos + 32 <= b@.len(),
            forall|j: int| 0 <= j < i ==> a@[j] == b@[pos + j],
        decreases 32 - i,
    {
        a[i] = b[pos + i];
        i = i + 1;
    }
    proof {
        let s = b@.skip(pos as int);
        assert(a@ =~= s.take(32));
        let h = choose|h: H256| h@ == s.take(32);
        assert(h =~= a);
    }
    Some((a, pos + 32))
}

/// Appends the encoding of a coin.
pub fn encode_coin(c: &Coin, out: &mut Vec<u8>)
    ensures
        final(out)@ == old(out)@ + enc_coin(*c),
{
    push_le(out, c.value(), 8);
}

/// Reads a coin at `pos`; fails on a short input or an amount above `MAX_COIN`.
pub fn decode_coin(b: &[u8], pos: usize) -> (r: Option<(Coin, usize)>)
    requires
        pos <= b@.len(),
    ensures
        read_as(parse_coin(b@.skip(pos as int)), r, pos),
{
    if b.len() - pos < 8 {
        return None;
    }
    let v = read_le(b, pos, 8);
    proof {
        assert(b@.subrange(pos as int, pos + 8) =~= b@.skip(pos as int).take(8));
    }
    match Coin::new(v) {
        Ok(c) => Some((c, pos + 8)),
        Err(_) => None,
    }
}

/// Appends the encoding of an address.
pub fn encode_addr(a: &ExtendedAddr, out: &mut Vec<u8>)
    ensures
        final(out)@ == old(out)@ + enc_addr(*a),
{
    out.push(0u8);
    let h = a.root();
    encode_h256(&h, out);
    proof {
        assert(out@ =~= old(out)@ + enc_addr(*a));
    }
}

/// Reads an address at `pos`.
pub fn decode_addr(b: &[u8], pos: usize) -> (r: Option<(ExtendedAddr, usize)>)
    requires
        pos <= b@.len(),
    ensures
        read_as(parse_addr(b@.skip(pos as int)), r, pos),
{
    if pos >= b.len() || b[pos] != 0 {
        return None;
    }
    proof {
        assert(b@.skip(pos as int).drop_first() =~= b@.skip(pos + 1));
    }
    match decode_h256(b, pos + 1) {
        Some((h, next)) => Some((ExtendedAddr::OrTree(h), next)),
        None => None,
    }
}

/// Appends the encoding of a balance change.
pub fn encode_balance_change(c: &BalanceChange, out: &mut Vec<u8>)
    ensures
        final(out)@ == old(out)@ + enc_balance_change(*c),
{
    match c {
        BalanceChange::Incoming(v) => {
            out.push(0u8);
            encode_coin(v, out);
        },
        BalanceChange::Outgoing(v) => {
            out.push(1u8);
            encode_coin(v, out);
        },
    }
    proof {
        assert(out@ =~= old(out)@ + enc_balance_change(*c));
    }
}

/// Reads a balance change at `pos`.
pub fn decode_balance_change(b: &[u8], pos: usize) -> (r: Option<(BalanceChange, usize)>)
    requires
        pos <= b@.len(),
    ensures
        read_as(parse_balance_change(b@.skip(pos as int)), r, pos),
{
    if pos >= b.len() || b[pos] > 1 {
        return None;
    }
    let tag = b[pos];
    proof {
        assert(b@.skip(pos as int).drop_first() =~= b@.skip(pos + 1));
    }
    match decode_coin(b, pos + 1) {
        Some((c, next)) => if tag == 0 {
            Some((BalanceChange::Incoming(c), next))
        } else {
            Some((BalanceChange::Outgoing(c), next))
        },
        None => None,
    }
}

/// Appends the encoding of an output pointer.
pub fn encode_txo_pointer(p: &TxoPointer, out: &mut Vec<u8>)
    ensures
        final(out)@ == old(out)@ + enc_txo_pointer(*p),
{
    encode_h256(&p.id, out);
    push_le(out, p.index as u64, 2);
    proof {
        assert(out@ =~= old(out)@ + enc_txo_pointer(*p));
    }
}

/// Reads an output pointer at `pos`.
pub fn decode_txo_pointer(b: &[u8], pos: usize) -> (r: Option<(TxoPointer, usize)>)
    requires
        pos <= b@.len(),
    ensures
        read_as(parse_txo_pointer(b@.skip(pos as int)), r, pos),
{
    match decode_h256(b, pos) {
        None => None,
        Some((id, next)) => {
            if b.len() - pos < 34 {
                return None;
            }
            let index = read_le(b, next, 2);
            proof {
                assert(b@.subrange(next as int, next + 2) =~= b@.skip(pos as int).subrange(32, 34));
                lemma_le_value_bound(b@.subrange(next as int, next + 2));
            }
            Some((TxoPointer { id, index: index as u16 }, pos + 34))
        },
    }
}

/// Appends the encoding of a block time, when it is encodable; returns
/// whether it was.
pub fn encode_block_time(t: &BlockTime, out: &mut Vec<u8>) -> (ok: bool)
    ensures
        ok == encodable_time(*t),
        ok ==> final(out)@ == old(out)@ + enc_block_time(*t),
        !ok ==> final(out)@ == old(out)@,
{
    let mut text = match format_rfc3339(t.seconds, t.nanos) {
        Some(v) => v,
        None => return false,
    };
    if text.len() > u32::MAX as usize {
        return false;
    }
    push_compact(out, text.len() as u32);
    let ghost mid = out@;
    out.append(&mut text);
    true
}

/// Reads a block time at `pos`.
pub fn decode_block_time(b: &[u8], pos: usize) -> (r: Option<(BlockTime, usize)>)
    requires
        pos <= b@.len(),
    ensures
        read_as(parse_block_time(b@.skip(pos as int)), r, pos),
{
    let blen: usize = b.len();
    let (len, p1) = match read_compact(b, pos) {
        Some(x) => x,
        None => return None,
    };
    if blen - p1 < len as usize {
        return None;
    }
    let (_, tail) = b.split_at(p1);
    let (text, _) = tail.split_at(len as usize);
    proof {
        let k = (p1 - pos) as nat;
        assert(text@ =~= b@.skip(pos as int).subrange(k as int, k + len));
    }
    match parse_rfc3339(text) {
        Some((seconds, nanos)) => Some((BlockTime { seconds, nanos }, p1 + len as usize)),
        None => None,
    }
}

/// Appends the encoding of a transaction change, when its block time is
/// encodable; returns whether it was.
pub fn encode_transaction_change(t: &TransactionChange, out: &mut Vec<u8>) -> (ok: bool)
    ensures
        ok == encodable_time(t.block_time),
        ok ==> final(out)@ == old(out)@ + enc_transaction_change(*t),
        !ok ==> final(out)@ == old(out)@,
{
    let mut time: Vec<u8> = Vec::new();
    if !encode_block_time(&t.block_time, &mut time) {
        return false;
    }
    encode_h256(&t.transaction_id, out);
    encode_addr(&t.address, out);
    encode_balance_change(&t.balance_change, out);
    push_le(out, t.block_height, 8);
    out.append(&mut time);
    proof {
        assert(out@ =~= old(out)@ + enc_transaction_change(*t));
    }
    true
}

/// Reads a transaction change at `pos`.
pub fn decode_transaction_change(b: &[u8], pos: usize) -> (r: Option<(TransactionChange, usize)>)
    requires
        pos <= b@.len(),
    ensures
        read_as(parse_transaction_change(b@.skip(pos as int)), r, pos),
{
    let ghost s = b@.skip(pos as int);
    let blen: usize = b.len();
    let r1 = decode_h256(b, pos);
    if r1.is_none() {
        return None;
    }
    let (id, p1) = r1.unwrap();
    proof {
        assert(p1 == pos + 32);
        assert(s.skip(32) =~= b@.skip(p1 as int));
    }
    let r2 = decode_addr(b, p1);
    if r2.is_none() {
        return None;
    }
    let (address, p2) = r2.unwrap();
    proof {
        assert(p2 == p1 + 33);
        assert(s.skip(p2 - pos) =~= b@.skip(p2 as int));
    }
    let (balance_change, p3) = match decode_balance_change(b, p2) {
        Some(x) => x,
        None => return None,
    };
    if b.len() - p3 < 8 {
        return None;
    }
    let block_height = read_le(b, p3, 8);
    proof {
        assert(s.subrange(p3 - pos, p3 - pos + 8) =~= b@.subrange(p3 as int, p3 + 8));
        assert(s.skip(p3 - pos + 8) =~= b@.skip(p3 + 8));
    }
    let (block_time, p5) = match decode_block_time(b, p3 + 8) {
        Some(x) => x,
        None => return None,
    };
    Some((TransactionChange { transaction_id: id, address, balance_change, block_height, block_time }, p5))
}

/// A number read from `n` bytes is below `256^n`.
pub proof fn lemma_le_value_bound(s: Seq<u8>)
    ensures
        le_value(s) < pow256(s.len()),
    decreases s.len(),
{
    reveal(vstd::arithmetic::power::pow);
    if s.len() > 0 {
        lemma_le_value_bound(s.drop_first());
        let p = pow256((s.len() - 1) as nat);
        let v = le_value(s.drop_first());
        let b = s[0] as nat;
        assert(b + 256 * v < 256 * p) by (nonlinear_arith)
            requires v < p, b < 256;
        vstd::arithmetic::power::lemma_pow_positive(256, (s.len() - 1) as nat);
    }
}

/// `256^n` for the widths that the encoding uses.
proof fn lemma_widths()
    ensures
        pow256(2) == 0x1_0000,
        pow256(4) == 0x1_0000_0000,
        pow256(8) == 0x1_0000_0000_0000_0000,
{
    reveal_with_fuel(vstd::arithmetic::power::pow, 9);
}

/// A hash reads back from the front of any bytes that start with it.
pub proof fn lemma_h256_round_trip(h: H256, rest: Seq<u8>)
    ensures
        parse_h256(enc_h256(h) + rest) == Some((h, 32nat)),
{
    let s = enc_h256(h) + rest;
    assert(s.take(32) =~= h@);
    let g = choose|g: H256| g@ == s.take(32);
    assert(g =~= h);
}

/// A coin reads back from the front of any bytes that start with it.
pub proof fn lemma_coin_round_trip(c: Coin, rest: Seq<u8>)
    requires
        c@ <= MAX_COIN,
    ensures
        parse_coin(enc_coin(c) + rest) == Some((c, 8nat)),
{
    let s = enc_coin(c) + rest;
    lemma_widths();
    Coin::lemma_of_own_amount(c);
    lemma_le_round_trip(c@, 8);
    assert(s.take(8) =~= enc_coin(c));
}

/// An address reads back from the front of any bytes that start with it.
pub proof fn lemma_addr_round_trip(a: ExtendedAddr, rest: Seq<u8>)
    ensures
        parse_addr(enc_addr(a) + rest) == Some((a, 33nat)),
{
    let s = enc_addr(a) + rest;
    match a {
        ExtendedAddr::OrTree(h) => {
            assert(s.drop_first() =~= enc_h256(h) + rest);
            lemma_h256_round_trip(h, rest);
        },
    }
}

/// A balance change reads back from the front of any bytes that start with it.
pub proof fn lemma_balance_change_round_trip(b: BalanceChange, rest: Seq<u8>)
    requires
        match b {
            BalanceChange::Incoming(c) => c@ <= MAX_COIN,
            BalanceChange::Outgoing(c) => c@ <= MAX_COIN,
        },
    ensures
        parse_balance_change(enc_balance_change(b) + rest) == Some((b, 9nat)),
{
    let s = enc_balance_change(b) + rest;
    match b {
        BalanceChange::Incoming(c) => {
            assert(s.drop_first() =~= enc_coin(c) + rest);
            lemma_coin_round_trip(c, rest);
        },
        BalanceChange::Outgoing(c) => {
            assert(s.drop_first() =~= enc_coin(c) + rest);
            lemma_coin_round_trip(c, rest);
        },
    }
}

/// An output pointer reads back from the front of any bytes that start with it.
pub proof fn lemma_txo_pointer_round_trip(p: TxoPointer, rest: Seq<u8>)
    ensures
        parse_txo_pointer(enc_txo_pointer(p) + rest) == Some((p, 34nat)),
{
    let s = enc_txo_pointer(p) + rest;
    lemma_widths();
    assert(s =~= enc_h256(p.id) + (le_bytes(p.index as nat, 2) + rest));
    lemma_h256_round_trip(p.id, le_bytes(p.index as nat, 2) + rest);
    assert(s.subrange(32, 34) =~= le_bytes(p.index as nat, 2));
    lemma_le_round_trip(p.index as nat, 2);
}

/// Chrono reads the text of a block time back as the same instant.
pub open spec fn time_reads_back(t: BlockTime) -> bool {
    encodable_time(t) && rfc3339_time(time_text(t)->Some_0) == Some((t.seconds, t.nanos))
}

/// A block time whose text reads back reads back from the front of any
/// bytes that start with its encoding.
pub proof fn lemma_block_time_round_trip(t: BlockTime, rest: Seq<u8>)
    requires
        time_reads_back(t),
    ensures
        parse_block_time(enc_block_time(t) + rest) == Some((t, enc_block_time(t).len())),
{
    let text = time_text(t)->Some_0;
    let s = enc_block_time(t) + rest;
    assert(s =~= compact_bytes(text.len() as u32) + (text + rest));
    lemma_compact_round_trip(text.len() as u32, text + rest);
    let k = compact_bytes(text.len() as u32).len();
    assert(s.subrange(k as int, (k + text.len()) as int) =~= text);
}

/// A transaction change reads back from the front of any bytes that start
/// with it.
pub proof fn lemma_transaction_change_round_trip(t: TransactionChange, rest: Seq<u8>)
    requires
        match t.balance_change {
            BalanceChange::Incoming(c) => c@ <= MAX_COIN,
            BalanceChange::Outgoing(c) => c@ <= MAX_COIN,
        },
        time_reads_back(t.block_time),
    ensures
        parse_transaction_change(enc_transaction_change(t) + rest) == Some(
            (t, enc_transaction_change(t).len()),
        ),
{
    let s = enc_transaction_change(t) + rest;
    let e_time = enc_block_time(t.block_time);
    let e_height = le_bytes(t.block_height as nat, 8);
    let r4 = e_time + rest;
    let r3 = e_height + r4;
    let r2 = enc_balance_change(t.balance_change) + r3;
    let r1 = enc_addr(t.address) + r2;
    assert(s =~= enc_h256(t.transaction_id) + r1);
    lemma_h256_round_trip(t.transaction_id, r1);
    assert(s.skip(32) =~= r1);
    lemma_addr_round_trip(t.address, r2);
    assert(s.skip(65) =~= r2);
    lemma_balance_change_round_trip(t.balance_change, r3);
    assert(s.subrange(74, 82) =~= e_height);
    lemma_widths();
    lemma_le_round_trip(t.block_height as nat, 8);
    assert(s.skip(82) =~= r4);
    lemma_block_time_round_trip(t.block_time, rest);
}

/// The encoding of a transaction change; `None` when its block time has no
/// RFC 3339 text.
pub fn encode(t: &TransactionChange) -> (r: Option<Vec<u8>>)
    ensures
        encodable_time(t.block_time) ==> (r matches Some(v) && v@ == enc_transaction_change(*t)),
        !encodable_time(t.block_time) ==> r is None,
{
    let mut out: Vec<u8> = Vec::new();
    if !encode_transaction_change(t, &mut out) {
        return None;
    }
    proof {
        assert(out@ =~= enc_transaction_change(*t));
    }
    Some(out)
}

/// The transaction change that `b` encodes, with nothing after it.
pub fn decode(b: &[u8]) -> (r: Option<TransactionChange>)
    ensures
        match parse_transaction_change(b@) {
            Some((t, k)) => if k == b@.len() {
                r == Some(t)
            } else {
                r is None
            },
            None => r is None,
        },
{
    proof {
        assert(b@.skip(0) =~= b@);
    }
    match decode_transaction_change(b, 0) {
        Some((t, next)) => if next == b.len() {
            Some(t)
        } else {
            None
        },
        None => None,
    }
}

/// Decoding the encoding of a transaction change gives it back, for a
/// block time whose RFC 3339 text chrono reads back as the same instant.
pub proof fn lemma_decode_encode(t: TransactionChange)
    requires
        match t.balance_change {
            BalanceChange::Incoming(c) => c@ <= MAX_COIN,
            BalanceChange::Outgoing(c) => c@ <= MAX_COIN,
        },
        time_reads_back(t.block_time),
    ensures
        parse_transaction_change(enc_transaction_change(t)) == Some(
            (t, enc_transaction_change(t).len()),
        ),
{
    lemma_transaction_change_round_trip(t, Seq::empty());
    assert(enc_transaction_change(t) + Seq::<u8>::empty() =~= enc_transaction_change(t));
}

/// An output: its address, its value, and its optional time lock (tag 0
/// for none, tag 1 and eight bytes for one).
pub open spec fn enc_tx_out(o: TxOut) -> Seq<u8> {
    enc_addr(o.address) + enc_coin(o.value) + match o.valid_from {
        None => seq![0u8],
        Some(t) => seq![1u8] + le_bytes((t as u64) as nat, 8),
    }
}

/// The encodings of the items, one after the other.
pub open spec fn enc_pointers(ps: Seq<TxoPointer>) -> Seq<u8>
    decreases ps.len(),
{
    if ps.len() == 0 {
        Seq::empty()
    } else {
        enc_pointers(ps.drop_last()) + enc_txo_pointer(ps.last())
    }
}

/// The encodings of the items, one after the other.
pub open spec fn enc_outputs(os: Seq<TxOut>) -> Seq<u8>
    decreases os.len(),
{
    if os.len() == 0 {
        Seq::empty()
    } else {
        enc_outputs(os.drop_last()) + enc_tx_out(os.last())
    }
}

/// A transaction: its inputs and its outputs, each list after its compact
/// length, then the chain id.
pub open spec fn enc_transaction(t: Transaction) -> Seq<u8> {
    compact_bytes(t.inputs@.len() as u32) + enc_pointers(t.inputs@) + compact_bytes(
        t.outputs@.len() as u32,
    ) + enc_outputs(t.outputs@) + seq![t.attributes.chain_hex_id]
}

/// Appends the encoding of an output.
pub fn encode_tx_out(o: &TxOut, out: &mut Vec<u8>)
    ensures
        final(out)@ == old(out)@ + enc_tx_out(*o),
{
    encode_addr(&o.address, out);
    encode_coin(&o.value, out);
    match o.valid_from {
        None => out.push(0u8),
        Some(t) => {
            out.push(1u8);
            push_le(out, t as u64, 8);
        },
    }
    proof {
        assert(out@ =~= old(out)@ + enc_tx_out(*o));
    }
}

/// The encoding of a transaction; its lists may hold at most `u32::MAX` items.
pub fn encode_transaction(t: &Transaction) -> (r: Vec<u8>)
    requires
        t.inputs@.len() <= u32::MAX,
        t.outputs@.len() <= u32::MAX,
    ensures
        r@ == enc_transaction(*t),
{
    let mut out: Vec<u8> = Vec::new();
    push_compact(&mut out, t.inputs.len() as u32);
    let ghost start = out@;
    let mut i: usize = 0;
    while i < t.inputs.len()
        invariant
            i <= t.inputs@.len(),
            out@ == start + enc_pointers(t.inputs@.take(i as int)),
        decreases t.inputs.len() - i,
    {
        encode_txo_pointer(&t.inputs[i], &mut out);
        proof {
            assert(t.inputs@.take(i as int + 1).drop_last() =~= t.inputs@.take(i as int));
        }
        i = i + 1;
        proof {
            assert(out@ =~= start + enc_pointers(t.inputs@.take(i as int)));
        }
    }
    proof {
        assert(t.inputs@.take(i as int) =~= t.inputs@);
    }
    push_compact(&mut out, t.outputs.len() as u32);
    let ghost mid = out@;
    let mut k: usize = 0;
    while k < t.outputs.len()
        invariant
            k <= t.outputs@.len(),
            out@ == mid + enc_outputs(t.outputs@.take(k as int)),
        decreases t.outputs.len() - k,
    {
        encode_tx_out(&t.outputs[k], &mut out);
        proof {
            assert(t.outputs@.take(k as int + 1).drop_last() =~= t.outputs@.take(k as int));
        }
        k = k + 1;
        proof {
            assert(out@ =~= mid + enc_outputs(t.outputs@.take(k as int)));
        }
    }
    proof {
        assert(t.outputs@.take(k as int) =~= t.outputs@);
    }
    out.push(t.attributes.chain_hex_id);
    proof {
        assert(out@ =~= enc_transaction(*t));
    }
    out
}

/// A byte string: its compact length, then its bytes.
pub open spec fn enc_bytes(b: Seq<u8>) -> Seq<u8> {
    compact_bytes(b.len() as u32) + b
}

/// The byte strings, each encoded, one after the other.
pub open spec fn enc_bytes_list(ls: Seq<Seq<u8>>) -> Seq<u8>
    decreases ls.len(),
{
    if ls.len() == 0 {
        Seq::empty()
    } else {
        enc_bytes(ls[0]) + enc_bytes_list(ls.drop_first())
    }
}

/// The leaves of a Merkle tree: their count in compact form, then each leaf.
pub open spec fn enc_leaves(ls: Seq<Seq<u8>>) -> Seq<u8> {
    compact_bytes(ls.len() as u32) + enc_bytes_list(ls)
}

/// Every leaf, and the number of leaves, fit a compact length.
pub open spec fn encodable_leaves(ls: Seq<Seq<u8>>) -> bool {
    ls.len() <= u32::MAX && forall|i: int| 0 <= i < ls.len() ==> #[trigger] ls[i].len() <= u32::MAX
}

/// `n` byte strings read from the front of `s`, and the length they took.
pub open spec fn parse_bytes_list(s: Seq<u8>, n: nat) -> Option<(Seq<Seq<u8>>, nat)>
    decreases n,
{
    if n == 0 {
        Some((Seq::empty(), 0))
    } else {
        match parse_compact(s) {
            None => None,
            Some((len, k)) => if s.len() < k + len {
                None
            } else {
                match parse_bytes_list(s.skip(k + len), (n - 1) as nat) {
                    None => None,
                    Some((rest, m)) => Some(
                        (seq![s.subrange(k as int, k + len)] + rest, (k + len + m) as nat),
                    ),
                }
            },
        }
    }
}

/// The leaves read from the front of `s`, and the length they took.
pub open spec fn parse_leaves(s: Seq<u8>) -> Option<(Seq<Seq<u8>>, nat)> {
    match parse_compact(s) {
        None => None,
        Some((n, k)) => match parse_bytes_list(s.skip(k as int), n as nat) {
            None => None,
            Some((ls, m)) => Some((ls, k + m)),
        },
    }
}

/// Leaves read back from the front of any bytes that start with them.
pub proof fn lemma_bytes_list_round_trip(ls: Seq<Seq<u8>>, rest: Seq<u8>)
    requires
        encodable_leaves(ls),
    ensures
        parse_bytes_list(enc_bytes_list(ls) + rest, ls.len()) == Some(
            (ls, enc_bytes_list(ls).len()),
        ),
    decreases ls.len(),
{
    if ls.len() > 0 {
        let tail = ls.drop_first();
        assert(encodable_leaves(tail)) by {
            assert forall|i: int| 0 <= i < tail.len() implies #[trigger] tail[i].len() <= u32::MAX by {
                assert(tail[i] == ls[i + 1]);
            }
        }
        let head = ls[0];
        assert(head.len() <= u32::MAX);
        let s = enc_bytes_list(ls) + rest;
        let after = head + enc_bytes_list(tail) + rest;
        assert(s =~= compact_bytes(head.len() as u32) + after);
        lemma_compact_round_trip(head.len() as u32, after);
        let k = compact_bytes(head.len() as u32).len();
        assert(s.skip((k + head.len()) as int) =~= enc_bytes_list(tail) + rest);
        assert(s.subrange(k as int, (k + head.len()) as int) =~= head);
        lemma_bytes_list_round_trip(tail, rest);
        assert(seq![head] + tail =~= ls);
    }
}

/// The leaves of a tree read back from the front of any bytes that start
/// with their encoding.
pub proof fn lemma_leaves_round_trip(ls: Seq<Seq<u8>>, rest: Seq<u8>)
    requires
        encodable_leaves(ls),
    ensures
        parse_leaves(enc_leaves(ls) + rest) == Some((ls, enc_leaves(ls).len())),
{
    let s = enc_leaves(ls) + rest;
    let after = enc_bytes_list(ls) + rest;
    assert(s =~= compact_bytes(ls.len() as u32) + after);
    lemma_compact_round_trip(ls.len() as u32, after);
    let k = compact_bytes(ls.len() as u32).len();
    assert(s.skip(k as int) =~= after);
    lemma_bytes_list_round_trip(ls, rest);
}

/// The encoding of the leaves of a tree.
pub fn encode_leaves(ls: &Vec<Vec<u8>>) -> (r: Vec<u8>)
    requires
        encodable_leaves(ls.deep_view()),
    ensures
        r@ == enc_leaves(ls.deep_view()),
{
    let mut out: Vec<u8> = Vec::new();
    push_compact(&mut out, ls.len() as u32);
    let ghost start = out@;
    let ghost all = ls.deep_view();
    let mut i: usize = ls.len();
    let mut tail: Vec<u8> = Vec::new();
    while i > 0
        invariant
            i <= ls@.len(),
            all == ls.deep_view(),
            encodable_leaves(all),
            tail@ == enc_bytes_list(all.skip(i as int)),
        decreases i,
    {
        let ghost old_tail = tail@;
        let mut piece: Vec<u8> = Vec::new();
        proof {
            assert(all[i - 1].len() <= u32::MAX);
            assert(all[i - 1] == ls@[i - 1]@);
        }
        push_compact(&mut piece, ls[i - 1].len() as u32);
        piece.extend_from_slice(ls[i - 1].as_slice());
        piece.append(&mut tail);
        tail = piece;
        i = i - 1;
        proof {
            assert(all.skip(i as int).drop_first() =~= all.skip(i as int + 1));
            assert(all.skip(i as int)[0] == all[i as int]);
        }
    }
    proof {
        assert(all.skip(0) =~= all);
    }
    out.append(&mut tail);
    out
}

/// The result of reading `rest` after `acc` was read in `off` bytes.
pub open spec fn after_prefix(
    acc: Seq<Seq<u8>>,
    rest: Option<(Seq<Seq<u8>>, nat)>,
    off: nat,
) -> Option<(Seq<Seq<u8>>, nat)> {
    match rest {
        Some((more, m)) => Some((acc + more, off + m)),
        None => None,
    }
}

/// Reading one more byte string moves it from what is left to what was read.
proof fn lemma_parse_step(
    here: Seq<u8>,
    n: nat,
    len: u32,
    k: nat,
    acc: Seq<Seq<u8>>,
    off: nat,
)
    requires
        n > 0,
        parse_compact(here) == Some((len, k)),
        here.len() >= k + len,
    ensures
        after_prefix(acc, parse_bytes_list(here, n), off) == after_prefix(
            acc.push(here.subrange(k as int, k + len)),
            parse_bytes_list(here.skip(k + len), (n - 1) as nat),
            (off + k + len) as nat,
        ),
{
    let leaf = here.subrange(k as int, k + len);
    match parse_bytes_list(here.skip(k + len), (n - 1) as nat) {
        Some((rest, m)) => {
            assert(acc + (seq![leaf] + rest) =~~= acc.push(leaf) + rest);
        },
        None => {},
    }
}

/// Nothing read yet: the whole result is still ahead.
proof fn lemma_empty_prefix(s: Seq<u8>, n: nat)
    ensures
        parse_bytes_list(s, n) == after_prefix(Seq::empty(), parse_bytes_list(s, n), 0),
{
    match parse_bytes_list(s, n) {
        Some((more, m)) => {
            assert(Seq::<Seq<u8>>::empty() + more =~= more);
        },
        None => {},
    }
}

/// The leaves that `b` encodes, with nothing after them.
pub fn decode_leaves(b: &[u8]) -> (r: Option<Vec<Vec<u8>>>)
    ensures
        match parse_leaves(b@) {
            Some((ls, k)) => if k == b@.len() {
                r matches Some(v) && v.deep_view() == ls
            } else {
                r is None
            },
            None => r is None,
        },
{
    proof {
        assert(b@.skip(0) =~= b@);
    }
    let r0 = read_compact(b, 0);
    if r0.is_none() {
        return None;
    }
    let (n, start) = r0.unwrap();
    proof {
        lemma_empty_prefix(b@.skip(start as int), n as nat);
    }
    let blen: usize = b.len();
    let mut ls: Vec<Vec<u8>> = Vec::new();
    let mut pos: usize = start;
    let mut i: u32 = 0;
    let ghost s0 = b@.skip(start as int);
    while i < n
        invariant
            start <= pos <= b@.len(),
            blen == b@.len(),
            i <= n,
            s0 == b@.skip(start as int),
            parse_compact(b@) == Some((n, (start - 0) as nat)),
            parse_bytes_list(s0, n as nat) == after_prefix(
                ls.deep_view(),
                parse_bytes_list(b@.skip(pos as int), (n - i) as nat),
                (pos - start) as nat,
            ),
        decreases n - i,
    {
        let ghost here = b@.skip(pos as int);
        let (len, p1) = match read_compact(b, pos) {
            Some(x) => x,
            None => {
                proof {
                    assert(parse_bytes_list(here, (n - i) as nat) is None);
                }
                return None;
            },
        };
        if blen - p1 < len as usize {
            proof {
                assert(parse_bytes_list(here, (n - i) as nat) is None);
            }
            return None;
        }
        let mut leaf: Vec<u8> = Vec::new();
        let (_, tail) = b.split_at(p1);
        let (piece, _) = tail.split_at(len as usize);
        leaf.extend_from_slice(piece);
        let ghost old_ls = ls.deep_view();
        ls.push(leaf);
        proof {
            let k = (p1 - pos) as nat;
            assert(leaf@ =~= here.subrange(k as int, k + len));
            assert(here.skip(k + len) =~= b@.skip(p1 + len));
            assert(ls.deep_view() =~~= old_ls.push(leaf@));
            lemma_parse_step(here, (n - i) as nat, len, k, old_ls, (pos - start) as nat);
        }
        pos = p1 + len as usize;
        i = i + 1;
    }
    proof {
        assert(ls.deep_view() + Seq::<Seq<u8>>::empty() =~~= ls.deep_view());
        assert(b@.skip(pos as int).len() == b@.len() - pos);
    }
    if pos == blen {
        Some(ls)
    } else {
        None
    }
}

/// An inclusion proof: the leaf as a byte string, then the steps in compact
/// count, each the sibling's 32 bytes and the byte 1 when the sibling is on
/// the left, else 0.
pub open spec fn enc_merkle_proof(leaf: Seq<u8>, path: Seq<crate::merkle::ProofStep>) -> Seq<u8> {
    enc_bytes(leaf) + compact_bytes(path.len() as u32) + enc_steps(path)
}

/// The proof steps, each encoded, one after the other.
pub open spec fn enc_steps(path: Seq<crate::merkle::ProofStep>) -> Seq<u8>
    decreases path.len(),
{
    if path.len() == 0 {
        Seq::empty()
    } else {
        enc_steps(path.drop_last()) + path.last().sibling@ + seq![
            if path.last().sibling_is_left {
                1u8
            } else {
                0u8
            },
        ]
    }
}

/// The encoding of an inclusion proof, whose leaf and path fit compact lengths.
pub fn encode_merkle_proof(p: &crate::merkle::MerkleProof) -> (r: Vec<u8>)
    requires
        p.leaf@.len() <= u32::MAX,
        p.path@.len() <= u32::MAX,
    ensures
        r@ == enc_merkle_proof(p.leaf@, p.path@),
{
    let mut out: Vec<u8> = Vec::new();
    push_compact(&mut out, p.leaf.len() as u32);
    out.extend_from_slice(p.leaf.as_slice());
    push_compact(&mut out, p.path.len() as u32);
    let ghost start = out@;
    let mut i: usize = 0;
    while i < p.path.len()
        invariant
            i <= p.path@.len(),
            out@ == start + enc_steps(p.path@.take(i as int)),
        decreases p.path.len() - i,
    {
        let step = p.path[i];
        out.extend_from_slice(step.sibling.as_slice());
        out.push(if step.sibling_is_left { 1u8 } else { 0u8 });
        proof {
            assert(p.path@.take(i as int + 1).drop_last() =~= p.path@.take(i as int));
        }
        i = i + 1;
        proof {
            assert(out@ =~= start + enc_steps(p.path@.take(i as int)));
        }
    }
    proof {
        assert(p.path@.take(i as int) =~= p.path@);
        assert(out@ =~= enc_merkle_proof(p.leaf@, p.path@));
    }
    out
}

/// The id of a transaction: the hash of its encoding.
pub fn transaction_id(t: &Transaction) -> (r: crate::types::TxId)
    requires
        t.inputs@.len() <= u32::MAX,
        t.outputs@.len() <= u32::MAX,
    ensures
        r@ == crate::hash::blake2s_of(enc_transaction(*t)),
{
    let bytes = encode_transaction(t);
    crate::hash::blake2s(bytes.as_slice())
}

} // verus!
