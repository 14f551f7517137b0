//! The distribution that a table stands for: how many slots hold each value.
//!
//! A sample is the content of a slot picked uniformly, so a value is drawn
//! with probability `slots_holding / 100`. The laws here say how that count
//! follows from the entries, and that the order of the entries has no part in
//! it.

use vstd::multiset::group_multiset_axioms;
use vstd::prelude::*;
use vstd::seq_lib::group_to_multiset_ensures;
use vstd::seq_lib::lemma_multiset_commutative;

use crate::table::lemma_runs_len;
use crate::table::run;
use crate::table::runs;
use crate::table::table_of;
use crate::table::total_slots;
use crate::table::StatInit;
use crate::table::SLOTS;

verus! {

/// The number of slots of `table` that hold `value`.
pub open spec fn slots_holding(table: Seq<u8>, value: u8) -> nat {
    table.to_multiset().count(value)
}

/// The number of slots that the entries with the given `value` claim together.
pub open spec fn weight(entries: Seq<StatInit>, value: u8) -> nat
    decreases entries.len(),
{
    if entries.len() == 0 {
        0
    } else {
        weight(entries.drop_last(), value) + if entries.last().value == value {
            entries.last().percentage as nat
        } else {
            0
        }
    }
}

/// A run of `len` slots that all hold `fill` holds `fill` in `len` slots and
/// any other value in none.
proof fn lemma_constant_run(len: nat, fill: u8, value: u8)
    ensures
        slots_holding(Seq::new(len, |i: int| fill), value) == if value == fill {
            len
        } else {
            0
        },
    decreases len,
{
    broadcast use group_multiset_axioms;
    broadcast use group_to_multiset_ensures;

    let whole = Seq::new(len, |i: int| fill);
    if len == 0 {
        assert(whole.to_multiset().len() == 0);
    } else {
        let shorter = Seq::new((len - 1) as nat, |i: int| fill);
        lemma_constant_run((len - 1) as nat, fill, value);
        assert(whole =~= shorter.push(fill));
    }
}

/// Among the claimed slots, those that hold `value` are as many as the entries
/// with that value claim.
proof fn lemma_runs_weight(entries: Seq<StatInit>, value: u8)
    ensures
        slots_holding(runs(entries), value) == weight(entries, value),
    decreases entries.len(),
{
    broadcast use group_multiset_axioms;
    broadcast use group_to_multiset_ensures;

    if entries.len() == 0 {
        assert(runs(entries).to_multiset().len() == 0);
    } else {
        let last = entries.last();
        lemma_runs_weight(entries.drop_last(), value);
        lemma_constant_run(last.percentage as nat, last.value, value);
        lemma_multiset_commutative(runs(entries.drop_last()), run(last));
    }
}

/// A table is its claimed slots followed by zeros up to [`SLOTS`].
proof fn lemma_table_parts(entries: Seq<StatInit>)
    requires
        total_slots(entries) <= SLOTS,
    ensures
        table_of(entries) == runs(entries) + Seq::new(
            (SLOTS - total_slots(entries)) as nat,
            |i: int| 0u8,
        ),
{
    lemma_runs_len(entries);
    assert(table_of(entries) =~= runs(entries) + Seq::new(
        (SLOTS - total_slots(entries)) as nat,
        |i: int| 0u8,
    ));
}

/// How often each value occurs in a table: a value other than zero occupies as
/// many slots as the entries with that value claim; zero occupies, besides
/// those, every slot that no entry claims.
pub proof fn lemma_slots_holding(entries: Seq<StatInit>, value: u8)
    requires
        total_slots(entries) <= SLOTS,
    ensures
        slots_holding(table_of(entries), value) == weight(entries, value) + if value == 0 {
            SLOTS - total_slots(entries)
        } else {
            0
        },
{
    broadcast use group_multiset_axioms;

    let padding = Seq::new((SLOTS - total_slots(entries)) as nat, |i: int| 0u8);
    lemma_table_parts(entries);
    lemma_runs_weight(entries, value);
    lemma_constant_run((SLOTS - total_slots(entries)) as nat, 0u8, value);
    lemma_multiset_commutative(runs(entries), padding);
}

/// Taking one entry out of a list takes its run out of the claimed slots,
/// wherever in the list the entry stood.
proof fn lemma_runs_remove(entries: Seq<StatInit>, j: int)
    requires
        0 <= j < entries.len(),
    ensures
        runs(entries).to_multiset() == runs(entries.remove(j)).to_multiset().add(
            run(entries[j]).to_multiset(),
        ),
    decreases entries.len(),
{
    broadcast use group_multiset_axioms;

    let last = entries.last();
    let shorter = entries.drop_last();
    lemma_multiset_commutative(runs(shorter), run(last));
    if j == entries.len() - 1 {
        assert(entries.remove(j) =~= shorter);
    } else {
        lemma_runs_remove(shorter, j);
        assert(entries.remove(j).drop_last() =~= shorter.remove(j));
        assert(entries.remove(j).last() == last);
        lemma_multiset_commutative(runs(shorter.remove(j)), run(last));
        assert(runs(entries).to_multiset() =~= runs(entries.remove(j)).to_multiset().add(
            run(entries[j]).to_multiset(),
        ));
    }
}

/// Two lists that hold the same entries, in whatever order, claim the same
/// slots up to order.
proof fn lemma_runs_reordered(a: Seq<StatInit>, b: Seq<StatInit>)
    requires
        a.to_multiset() == b.to_multiset(),
    ensures
        runs(a).to_multiset() == runs(b).to_multiset(),
    decreases a.len(),
{
    broadcast use group_multiset_axioms;
    broadcast use group_to_multiset_ensures;

    if a.len() == 0 {
        assert(b.to_multiset().len() == 0);
        assert(b =~= a);
    } else {
        let last = a.last();
        let shorter = a.drop_last();
        assert(a =~= shorter.push(last));
        assert(b.to_multiset().count(last) > 0);
        assert(b.contains(last));
        let j = choose|j: int| 0 <= j < b.len() && b[j] == last;
        assert(shorter.to_multiset() =~= b.remove(j).to_multiset());
        lemma_runs_reordered(shorter, b.remove(j));
        lemma_runs_remove(b, j);
        lemma_multiset_commutative(runs(shorter), run(last));
    }
}

/// The order of the entries has no part in the distribution: two lists that
/// hold the same entries, in whatever order, claim as many slots and give
/// tables in which every value occupies as many slots.
pub proof fn lemma_order_irrelevant(a: Seq<StatInit>, b: Seq<StatInit>)
    requires
        a.to_multiset() == b.to_multiset(),
        total_slots(a) <= SLOTS,
    ensures
        total_slots(b) == total_slots(a),
        forall|value: u8|
            slots_holding(#[trigger] table_of(b), value) == slots_holding(table_of(a), value),
{
    broadcast use group_multiset_axioms;
    broadcast use group_to_multiset_ensures;

    lemma_runs_reordered(a, b);
    lemma_runs_len(a);
    lemma_runs_len(b);
    assert(runs(a).len() == runs(a).to_multiset().len());
    assert(runs(b).len() == runs(b).to_multiset().len());
    lemma_table_parts(a);
    lemma_table_parts(b);
    let padding = Seq::new((SLOTS - total_slots(a)) as nat, |i: int| 0u8);
    lemma_multiset_commutative(runs(a), padding);
    lemma_multiset_commutative(runs(b), padding);
}

} // verus!
