//! The insertion-ordered buffer of recent deposits.
//!
//! The buffer is an [`IndexMap`] from transaction ID to deposit. This module
//! says what the operations that the engine needs are relied on to do with the
//! entries, oldest first.
use crate::record::{Deposit, DepositRecord};
use indexmap::IndexMap;
use vstd::prelude::*;

verus! {

/// `indexmap::IndexMap`, opaque.
#[verifier::external_type_specification]
#[verifier::external_body]
#[verifier::reject_recursive_types(K)]
#[verifier::reject_recursive_types(V)]
#[verifier::reject_recursive_types(S)]
pub struct ExIndexMap<K, V, S>(indexmap::IndexMap<K, V, S>);

/// The entries of a buffer in the order in which it walks them.
pub uninterp spec fn entries(m: IndexMap<u32, DepositRecord>) -> Seq<(u32, Deposit)>;

/// The transaction has an entry.
pub open spec fn has_tx(s: Seq<(u32, Deposit)>, tx: u32) -> bool {
    exists|i: int| 0 <= i < s.len() && (#[trigger] s[i]).0 == tx
}

/// The position of the transaction's entry.
pub open spec fn index_of_tx(s: Seq<(u32, Deposit)>, tx: u32) -> int {
    choose|i: int| 0 <= i < s.len() && (#[trigger] s[i]).0 == tx
}

/// The deposit of the transaction.
pub open spec fn deposit_of(s: Seq<(u32, Deposit)>, tx: u32) -> Option<Deposit> {
    if has_tx(s, tx) {
        Some(s[index_of_tx(s, tx)].1)
    } else {
        None
    }
}

/// No two entries share a transaction ID.
pub open spec fn distinct(s: Seq<(u32, Deposit)>) -> bool {
    forall|i: int, j: int|
        0 <= i < s.len() && 0 <= j < s.len() && i != j ==> (#[trigger] s[i]).0 != (#[trigger] s[j]).0
}

/// The entries after a deposit was put in: a known transaction keeps its place,
/// a new one goes to the end.
pub open spec fn with_deposit(s: Seq<(u32, Deposit)>, tx: u32, d: Deposit) -> Seq<(u32, Deposit)> {
    if has_tx(s, tx) {
        s.update(index_of_tx(s, tx), (tx, d))
    } else {
        s.push((tx, d))
    }
}

pub open spec fn entries_of(v: Seq<(u32, DepositRecord)>) -> Seq<(u32, Deposit)> {
    v.map_values(|e: (u32, DepositRecord)| (e.0, e.1@))
}

/// Calls `IndexMap::new`, which makes an empty map.
#[verifier::external_body]
pub(crate) fn new_buffer() -> (m: IndexMap<u32, DepositRecord>)
    ensures
        entries(m) == Seq::<(u32, Deposit)>::empty(),
{
    IndexMap::new()
}

/// Calls `IndexMap::len`, which counts the entries.
#[verifier::external_body]
pub(crate) fn buffer_len(m: &IndexMap<u32, DepositRecord>) -> (n: usize)
    ensures
        n == entries(*m).len(),
{
    m.len()
}

/// Calls `IndexMap::get`, which finds the value of a key.
#[verifier::external_body]
pub(crate) fn buffer_get(m: &IndexMap<u32, DepositRecord>, tx: u32) -> (r: Option<DepositRecord>)
    requires
        distinct(entries(*m)),
    ensures
        deposit_of(entries(*m), tx) == (match r {
            Some(d) => Some(d@),
            None => None,
        }),
{
    m.get(&tx).copied()
}

/// Calls `IndexMap::insert`, which replaces the value of a known key in place
/// and puts a new key at the end.
#[verifier::external_body]
pub(crate) fn buffer_insert(m: &mut IndexMap<u32, DepositRecord>, tx: u32, d: DepositRecord)
    requires
        distinct(entries(*old(m))),
    ensures
        entries(*final(m)) == with_deposit(entries(*old(m)), tx, d@),
{
    m.insert(tx, d);
}

/// Calls `IndexMap::drain` on the first `n` positions, which takes those
/// entries out in order and keeps the order of the rest.
#[verifier::external_body]
pub(crate) fn buffer_drain(m: &mut IndexMap<u32, DepositRecord>, n: usize) -> (r: Vec<
    (u32, DepositRecord),
>)
    requires
        n <= entries(*old(m)).len(),
    ensures
        entries_of(r@) == entries(*old(m)).take(n as int),
        entries(*final(m)) == entries(*old(m)).skip(n as int),
{
    m.drain(..n).collect()
}

/// Entries and their values stand in the same order.
pub proof fn law_entry_values_stand_in_order(v: Seq<(u32, DepositRecord)>)
    ensures
        entries_of(v).len() == v.len(),
        forall|i: int| 0 <= i < v.len() ==> (#[trigger] entries_of(v)[i]).0 == v[i].0 && entries_of(v)[i].1 == v[i].1@,
{
}

/// Entries are distinct exactly if an ID occurs at one place at most.
pub proof fn law_distinct_entries_have_one_place(s: Seq<(u32, Deposit)>)
    ensures
        distinct(s) <==> forall|i: int, j: int|
            0 <= i < s.len() && 0 <= j < s.len() && (#[trigger] s[i]).0 == (#[trigger] s[j]).0 ==> i == j,
{
}

} // verus!
