//! The mathematical model of a slot table: how a list of entries lays out the
//! one hundred slots.

use vstd::prelude::*;

verus! {

/// Number of slots in every table. One slot is one percent.
pub const SLOTS: usize = 100;

/// A single status definition: `percentage` consecutive slots hold `value`.
pub struct StatInit {
    pub percentage: usize,
    pub value: u8,
}

/// The number of slots that `entries` claim together: the sum of their
/// percentages.
pub open spec fn total_slots(entries: Seq<StatInit>) -> nat
    decreases entries.len(),
{
    if entries.len() == 0 {
        0
    } else {
        total_slots(entries.drop_last()) + entries.last().percentage as nat
    }
}

/// The slots that one entry claims: its value, `percentage` times.
pub open spec fn run(entry: StatInit) -> Seq<u8> {
    Seq::new(entry.percentage as nat, |i: int| entry.value)
}

/// The slots that `entries` claim, in order: the run of the first entry, then
/// the run of the second, and so on.
pub open spec fn runs(entries: Seq<StatInit>) -> Seq<u8>
    decreases entries.len(),
{
    if entries.len() == 0 {
        Seq::empty()
    } else {
        runs(entries.drop_last()) + run(entries.last())
    }
}

/// A full table whose leading slots are `claimed` and whose other slots hold
/// zero.
pub open spec fn zero_padded(claimed: Seq<u8>) -> Seq<u8> {
    Seq::new(
        SLOTS as nat,
        |i: int|
            if i < claimed.len() {
                claimed[i]
            } else {
                0u8
            },
    )
}

/// The table that `entries` describe. It is meaningful when the entries claim
/// no more than [`SLOTS`] slots.
pub open spec fn table_of(entries: Seq<StatInit>) -> Seq<u8> {
    zero_padded(runs(entries))
}

/// The claimed slots are exactly as many as the percentages add up to.
pub proof fn lemma_runs_len(entries: Seq<StatInit>)
    ensures
        runs(entries).len() == total_slots(entries),
    decreases entries.len(),
{
    if entries.len() > 0 {
        lemma_runs_len(entries.drop_last());
    }
}

/// A shorter list of the same entries claims no more slots.
pub proof fn lemma_total_slots_prefix(entries: Seq<StatInit>, k: int)
    requires
        0 <= k <= entries.len(),
    ensures
        total_slots(entries.take(k)) <= total_slots(entries),
    decreases entries.len(),
{
    if k == entries.len() {
        assert(entries.take(k) =~= entries);
    } else {
        lemma_total_slots_prefix(entries.drop_last(), k);
        assert(entries.drop_last().take(k) =~= entries.take(k));
    }
}

/// One entry more claims the slots of the shorter list, then its own run.
pub proof fn lemma_runs_step(entries: Seq<StatInit>, k: int)
    requires
        0 <= k < entries.len(),
    ensures
        runs(entries.take(k + 1)) == runs(entries.take(k)) + run(entries[k]),
        total_slots(entries.take(k + 1)) == total_slots(entries.take(k)) + entries[k].percentage,
{
    assert(entries.take(k + 1).drop_last() =~= entries.take(k));
}

/// The slots that a shorter list of the same entries claims are the leading
/// slots that the whole list claims.
pub proof fn lemma_runs_prefix(entries: Seq<StatInit>, k: int)
    requires
        0 <= k <= entries.len(),
    ensures
        runs(entries.take(k)) == runs(entries).take(total_slots(entries.take(k)) as int),
    decreases entries.len(),
{
    lemma_runs_len(entries);
    lemma_runs_len(entries.take(k));
    if k == entries.len() {
        assert(entries.take(k) =~= entries);
        assert(runs(entries).take(runs(entries).len() as int) =~= runs(entries));
    } else {
        let shorter = entries.drop_last();
        lemma_runs_prefix(shorter, k);
        lemma_total_slots_prefix(shorter, k);
        lemma_runs_len(shorter);
        assert(shorter.take(k) =~= entries.take(k));
        assert(runs(shorter).take(total_slots(entries.take(k)) as int) =~= runs(entries).take(
            total_slots(entries.take(k)) as int,
        ));
    }
}

/// Every table has [`SLOTS`] slots.
pub proof fn lemma_table_len(entries: Seq<StatInit>)
    ensures
        table_of(entries).len() == SLOTS,
{
}

/// Where each entry lands: entry `k` starts at the slot that the entries
/// before it have reached, and slot `j` of its run holds its value.
pub proof fn lemma_claimed_slot(entries: Seq<StatInit>, k: int, j: int)
    requires
        0 <= k < entries.len(),
        0 <= j < entries[k].percentage,
        total_slots(entries.take(k)) + j < SLOTS,
    ensures
        table_of(entries)[total_slots(entries.take(k)) + j] == entries[k].value,
{
    let start = total_slots(entries.take(k)) as int;
    lemma_runs_step(entries, k);
    lemma_runs_len(entries.take(k));
    lemma_runs_prefix(entries, k + 1);
    lemma_total_slots_prefix(entries, k + 1);
    lemma_runs_len(entries);
    assert(runs(entries.take(k + 1))[start + j] == run(entries[k])[j]);
    assert(runs(entries).take(total_slots(entries.take(k + 1)) as int)[start + j] == runs(
        entries,
    )[start + j]);
}

/// Slots past the last claimed one hold zero.
pub proof fn lemma_unclaimed_slot(entries: Seq<StatInit>, i: int)
    requires
        total_slots(entries) <= i < SLOTS,
    ensures
        table_of(entries)[i] == 0,
{
    lemma_runs_len(entries);
}

/// Entries that claim nothing, an empty list among them, give the table that
/// holds zero in every slot.
pub proof fn lemma_nothing_claimed(entries: Seq<StatInit>)
    requires
        total_slots(entries) == 0,
    ensures
        table_of(entries) == Seq::new(SLOTS as nat, |i: int| 0u8),
{
    lemma_runs_len(entries);
    assert(table_of(entries) =~= Seq::new(SLOTS as nat, |i: int| 0u8));
}

/// A single entry that claims every slot gives the table that holds its value
/// in every slot. With the value zero this is the default table.
pub proof fn lemma_one_full_entry(value: u8)
    ensures
        total_slots(seq![StatInit { percentage: SLOTS, value }]) == SLOTS,
        table_of(seq![StatInit { percentage: SLOTS, value }]) == Seq::new(
            SLOTS as nat,
            |i: int| value,
        ),
{
    let entries = seq![StatInit { percentage: SLOTS, value }];
    reveal_with_fuel(total_slots, 2);
    reveal_with_fuel(runs, 2);
    assert(entries.drop_last() =~= Seq::<StatInit>::empty());
    assert(table_of(entries) =~= Seq::new(SLOTS as nat, |i: int| value));
}

/// Every claimed slot holds the value of an entry that claims at least one
/// slot.
proof fn lemma_runs_values(entries: Seq<StatInit>, i: int)
    requires
        0 <= i < runs(entries).len(),
    ensures
        exists|k: int|
            0 <= k < entries.len() && (#[trigger] entries[k]).percentage > 0 && entries[k].value
                == runs(entries)[i],
    decreases entries.len(),
{
    if entries.len() > 0 {
        let shorter = entries.drop_last();
        if i < runs(shorter).len() {
            lemma_runs_values(shorter, i);
            let k = choose|k: int|
                0 <= k < shorter.len() && (#[trigger] shorter[k]).percentage > 0
                    && shorter[k].value == runs(shorter)[i];
            assert(entries[k].value == runs(entries)[i]);
        } else {
            let k = entries.len() - 1;
            assert(entries[k].value == runs(entries)[i]);
        }
    }
}

/// A value found in a table is zero or the value of an entry that claims at
/// least one slot.
pub proof fn lemma_table_values(entries: Seq<StatInit>, value: u8)
    requires
        table_of(entries).contains(value),
    ensures
        value == 0 || exists|k: int|
            0 <= k < entries.len() && (#[trigger] entries[k]).percentage > 0 && entries[k].value
                == value,
{
    let i = choose|i: int| 0 <= i < table_of(entries).len() && table_of(entries)[i] == value;
    if i < runs(entries).len() {
        lemma_runs_values(entries, i);
    }
}

} // verus!
