//! The sampler: a slot table that is laid out once and then sampled at random.

use vstd::prelude::*;

use crate::source::draw_usize;
use crate::table::lemma_runs_len;
use crate::table::lemma_runs_step;
use crate::table::lemma_total_slots_prefix;
use crate::table::run;
use crate::table::runs;
use crate::table::table_of;
use crate::table::total_slots;
use crate::table::zero_padded;
use crate::table::StatInit;
use crate::table::SLOTS;

verus! {

/// The error for entries that claim more than one hundred slots.
#[derive(Debug)]
pub struct RandStatOverflowError {}

/// The container for random status definitions.
///
/// There are one hundred cells, each standing for a probability of 0.01. A
/// default table holds zero in every cell, so every sample drawn from it is 0.
pub struct RandStat {
    cells: [u8; 100],
}

impl View for RandStat {
    type V = Seq<u8>;

    /// The table: the byte stored in each of the slots, in slot order.
    closed spec fn view(&self) -> Seq<u8> {
        self.cells@
    }
}

impl RandStat {
    /// Lays out a table from `init_vec`.
    ///
    /// The entries claim consecutive runs of slots, starting at slot 0 and in
    /// the order given; the slots left over hold zero. Entries that together
    /// claim more than [`SLOTS`] slots are rejected, and only those.
    pub fn new(init_vec: &[StatInit]) -> (r: Result<Self, RandStatOverflowError>)
        ensures
            match r {
                Ok(s) => total_slots(init_vec@) <= SLOTS && s@ == table_of(init_vec@) && s@.len()
                    == SLOTS,
                Err(_) => total_slots(init_vec@) > SLOTS,
            },
    {
        let mut cells = [0u8; 100];
        let mut index: usize = 0;
        let mut k: usize = 0;
        assert(cells@ =~= table_of(init_vec@.take(0)));
        while k < init_vec.len()
            invariant
                k <= init_vec.len(),
                index <= SLOTS,
                index == total_slots(init_vec@.take(k as int)),
                cells@ == table_of(init_vec@.take(k as int)),
            decreases init_vec.len() - k,
        {
            let init = &init_vec[k];
            proof {
                lemma_runs_step(init_vec@, k as int);
                lemma_runs_len(init_vec@.take(k as int));
            }
            if init.percentage > SLOTS - index {
                proof {
                    lemma_total_slots_prefix(init_vec@, k + 1);
                }
                return Err(RandStatOverflowError {});
            }
            let ghost claimed = runs(init_vec@.take(k as int));
            let ghost start = index;
            let end: usize = index + init.percentage;
            while index < end
                invariant
                    start <= index <= end <= SLOTS,
                    start == claimed.len(),
                    end == start + init.percentage,
                    cells@ == zero_padded(
                        claimed + Seq::new((index - start) as nat, |i: int| init.value),
                    ),
                decreases end - index,
            {
                cells[index] = init.value;
                index += 1;
            }
            assert(Seq::new((index - start) as nat, |i: int| init.value) =~= run(*init));
            k += 1;
        }
        assert(init_vec@.take(k as int) =~= init_vec@);
        Ok(RandStat { cells })
    }

    /// The value that a raw draw selects: the byte in slot `draw % 100`.
    ///
    /// Sampling is this function applied to a random `draw`. With a draw of the
    /// caller's choosing the outcome is reproducible.
    pub fn sample_with(&self, draw: usize) -> (value: u8)
        ensures
            value == self@[(draw % SLOTS) as int],
    {
        self.cells[draw % SLOTS]
    }

    /// Draws the next status byte: the content of a slot picked at random.
    ///
    /// The stream never ends, so the result is always `Some`, and every value
    /// returned is stored in some slot of the table. The table itself is left
    /// as it was.
    pub fn next(&mut self) -> (r: Option<u8>)
        ensures
            *final(self) == *old(self),
            r matches Some(value) && old(self)@.contains(value),
    {
        let mut rng = rand::thread_rng();
        let draw: usize = draw_usize(&mut rng);
        Some(self.sample_with(draw))
    }
}

impl RandStat {
    /// A table always has [`SLOTS`] slots, however it was made.
    pub proof fn lemma_full(self)
        ensures
            self@.len() == SLOTS,
    {
    }

    /// Two samplers with the same table are the same sampler: a table is all
    /// there is to one.
    pub proof fn lemma_table_decides(self, other: RandStat)
        requires
            self@ == other@,
        ensures
            self == other,
    {
        assert(self.cells =~= other.cells);
    }

    /// Laying out the same entries twice gives the same sampler, whatever was
    /// sampled in between.
    pub proof fn lemma_repeatable(entries: Seq<StatInit>, first: RandStat, second: RandStat)
        requires
            first@ == table_of(entries),
            second@ == table_of(entries),
        ensures
            first == second,
    {
        first.lemma_table_decides(second);
    }
}

impl Default for RandStat {
    /// The table that holds zero in every slot.
    fn default() -> (s: Self)
        ensures
            s@ == Seq::new(SLOTS as nat, |i: int| 0u8),
    {
        RandStat { cells: [0u8; 100] }
    }
}

impl RandStatOverflowError {
    /// The text that describes this error.
    pub fn message(&self) -> (text: &'static str)
        ensures
            text@ == "RandStat overflow"@,
    {
        "RandStat overflow"
    }
}

} // verus!
