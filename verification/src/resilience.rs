//! How far a faulty run departs from the faultless one, and the scores of
//! a series of faulty runs.

use vstd::prelude::*;
use crate::network::rows;

verus! {

/// Whether the two tables differ at row `i`, place `j`.
pub open spec fn differs(right: Seq<Seq<u8>>, output: Seq<Seq<u8>>, i: int, j: int) -> bool {
    right[i][j] != output[i][j]
}

/// `right` has a value wherever `output` has one.
pub open spec fn covers(right: Seq<Seq<u8>>, output: Seq<Seq<u8>>) -> bool {
    &&& output.len() <= right.len()
    &&& forall|i: int| 0 <= i < output.len() ==> (#[trigger] output[i]).len() <= right[i].len()
}

/// Whether `output` differs from `right` anywhere.
pub open spec fn any_mismatch(right: Seq<Seq<u8>>, output: Seq<Seq<u8>>) -> bool {
    exists|i: int, j: int|
        0 <= i < output.len() && 0 <= j < output[i].len() && #[trigger] differs(
            right,
            output,
            i,
            j,
        )
}

/// The number of places among the first `k` at which two rows differ.
pub open spec fn row_mismatches(right: Seq<u8>, output: Seq<u8>, k: nat) -> nat
    decreases k,
{
    if k == 0 {
        0
    } else {
        row_mismatches(right, output, (k - 1) as nat) + if right[k - 1] != output[k - 1] {
            1nat
        } else {
            0nat
        }
    }
}

/// The number of places in the first `k` rows at which two tables differ.
pub open spec fn mismatches(right: Seq<Seq<u8>>, output: Seq<Seq<u8>>, k: nat) -> nat
    decreases k,
{
    if k == 0 {
        0
    } else {
        mismatches(right, output, (k - 1) as nat) + row_mismatches(
            right[k - 1],
            output[k - 1],
            output[k - 1].len(),
        )
    }
}

/// The number of places at which `output` differs from `right`.
pub open spec fn mismatch_count(right: Seq<Seq<u8>>, output: Seq<Seq<u8>>) -> nat {
    mismatches(right, output, output.len())
}

/// Two rows have no mismatch among their first `k` places exactly when
/// they agree at each of them.
pub proof fn lemma_row_without_mismatch(right: Seq<u8>, output: Seq<u8>, k: nat)
    ensures
        row_mismatches(right, output, k) == 0 <==> forall|j: int|
            0 <= j < k ==> #[trigger] right[j] == output[j],
    decreases k,
{
    if k > 0 {
        lemma_row_without_mismatch(right, output, (k - 1) as nat);
        if row_mismatches(right, output, k) == 0 {
            assert forall|j: int| 0 <= j < k implies right[j] == output[j] by {
                if j < k - 1 {
                }
            }
        }
    }
}

/// Two tables have no mismatch in their first `k` rows exactly when they
/// agree at every place of those rows.
pub proof fn lemma_rows_without_mismatch(right: Seq<Seq<u8>>, output: Seq<Seq<u8>>, k: nat)
    requires
        k <= output.len(),
    ensures
        mismatches(right, output, k) == 0 <==> forall|i: int, j: int|
            0 <= i < k && 0 <= j < output[i].len() ==> !#[trigger] differs(right, output, i, j),
    decreases k,
{
    if k > 0 {
        lemma_rows_without_mismatch(right, output, (k - 1) as nat);
        lemma_row_without_mismatch(right[k - 1], output[k - 1], output[k - 1].len());
        if mismatches(right, output, k) == 0 {
            assert forall|i: int, j: int| 0 <= i < k && 0 <= j < output[i].len() implies !#[trigger] differs(
                right,
                output,
                i,
                j,
            ) by {
                if i < k - 1 {
                }
            }
        } else {
            if mismatches(right, output, (k - 1) as nat) == 0 {
                let j = choose|j: int|
                    0 <= j < output[k - 1].len() && #[trigger] right[k - 1][j] != output[k - 1][j];
                assert(differs(right, output, k - 1, j));
            }
        }
    }
}

/// The count of mismatches is zero exactly when there is no mismatch.
pub proof fn lemma_count_zero_iff_no_mismatch(right: Seq<Seq<u8>>, output: Seq<Seq<u8>>)
    ensures
        mismatch_count(right, output) == 0 <==> !any_mismatch(right, output),
{
    lemma_rows_without_mismatch(right, output, output.len());
}

/// The mismatches in part of a table are no more than those in all of it.
proof fn lemma_mismatches_grow(right: Seq<Seq<u8>>, output: Seq<Seq<u8>>, i: nat, j: nat, k: nat)
    requires
        i < k <= output.len(),
        j <= output[i as int].len(),
    ensures
        mismatches(right, output, i) + row_mismatches(right[i as int], output[i as int], j)
            <= mismatches(right, output, k),
    decreases k, output[i as int].len() - j,
{
    if j < output[i as int].len() {
        lemma_mismatches_grow(right, output, i, j + 1, k);
    } else if i + 1 < k {
        lemma_mismatches_grow(right, output, i, j, (k - 1) as nat);
    }
}

/// The number of values in the first `k` rows of a table.
pub open spec fn cells(table: Seq<Seq<u8>>, k: nat) -> nat
    decreases k,
{
    if k == 0 {
        0
    } else {
        cells(table, (k - 1) as nat) + table[k - 1].len()
    }
}

/// More rows hold no fewer values.
pub proof fn lemma_cells_grow(table: Seq<Seq<u8>>, i: nat, k: nat)
    requires
        i <= k,
    ensures
        cells(table, i) <= cells(table, k),
    decreases k - i,
{
    if i < k {
        lemma_cells_grow(table, i, (k - 1) as nat);
    }
}

/// A table whose first `k` rows all have `width` values holds `k * width`
/// values in them: as many as there are instants times neurons.
pub proof fn lemma_cells_of_rectangle(table: Seq<Seq<u8>>, width: nat, k: nat)
    requires
        k <= table.len(),
        forall|i: int| 0 <= i < k ==> (#[trigger] table[i]).len() == width,
    ensures
        cells(table, k) == k * width,
    decreases k,
{
    if k > 0 {
        let fewer = (k - 1) as nat;
        lemma_cells_of_rectangle(table, width, fewer);
        assert(k * width == fewer * width + width) by (nonlinear_arith)
            requires
                fewer == k - 1,
        ;
    } else {
        assert(k * width == 0) by (nonlinear_arith)
            requires
                k == 0,
        ;
    }
}

/// Two rows differ at no more places than they were held together at.
pub proof fn lemma_row_mismatches_bounded(right: Seq<u8>, output: Seq<u8>, k: nat)
    ensures
        row_mismatches(right, output, k) <= k,
    decreases k,
{
    if k > 0 {
        lemma_row_mismatches_bounded(right, output, (k - 1) as nat);
    }
}

/// A run differs from the faultless one at no more places than it has
/// values.
pub proof fn lemma_mismatches_bounded(right: Seq<Seq<u8>>, output: Seq<Seq<u8>>, k: nat)
    requires
        k <= output.len(),
    ensures
        mismatches(right, output, k) <= cells(output, k),
    decreases k,
{
    if k > 0 {
        lemma_mismatches_bounded(right, output, (k - 1) as nat);
        lemma_row_mismatches_bounded(right[k - 1], output[k - 1], output[k - 1].len());
    }
}

/// Counts the values of a table; nothing if they are more than can be
/// counted.
pub fn count_cells(table: &Vec<Vec<u8>>) -> (r: Option<usize>)
    ensures
        r == if cells(rows(table@), table@.len()) <= usize::MAX {
            Some(cells(rows(table@), table@.len()) as usize)
        } else {
            None
        },
{
    let ghost all = rows(table@);
    let mut total: usize = 0;
    let mut i: usize = 0;
    while i < table.len()
        invariant
            all == rows(table@),
            i <= table@.len(),
            total == cells(all, i as nat),
        decreases table@.len() - i,
    {
        assert(all[i as int] == table@[i as int]@);
        if table[i].len() > usize::MAX - total {
            proof {
                lemma_cells_grow(all, (i + 1) as nat, table@.len());
            }
            return None;
        }
        total = total + table[i].len();
        i = i + 1;
    }
    Some(total)
}

/// Tells whether a run differs from the faultless one anywhere: 1 if any
/// value of `output` is not that of `right` at the same place, 0 if none
/// is.
pub fn compute_differences1(right: &Vec<Vec<u8>>, output: &Vec<Vec<u8>>) -> (r: usize)
    requires
        covers(rows(right@), rows(output@)),
    ensures
        r == if any_mismatch(rows(right@), rows(output@)) { 1usize } else { 0usize },
{
    let ghost golden = rows(right@);
    let ghost faulty = rows(output@);
    let mut i: usize = 0;
    while i < output.len()
        invariant
            golden == rows(right@),
            faulty == rows(output@),
            covers(golden, faulty),
            i <= output@.len(),
            forall|a: int, b: int|
                0 <= a < i && 0 <= b < faulty[a].len() ==> !#[trigger] differs(golden, faulty, a, b),
        decreases output@.len() - i,
    {
        assert(faulty[i as int] == output@[i as int]@);
        assert(golden[i as int] == right@[i as int]@);
        let mut j: usize = 0;
        while j < output[i].len()
            invariant
                golden == rows(right@),
                faulty == rows(output@),
                covers(golden, faulty),
                i < output@.len(),
                faulty[i as int] == output@[i as int]@,
                golden[i as int] == right@[i as int]@,
                j <= output@[i as int]@.len(),
                forall|a: int, b: int|
                    0 <= a < i && 0 <= b < faulty[a].len() ==> !#[trigger] differs(
                        golden,
                        faulty,
                        a,
                        b,
                    ),
                forall|b: int| 0 <= b < j ==> !#[trigger] differs(golden, faulty, i as int, b),
            decreases output@[i as int]@.len() - j,
        {
            if right[i][j] != output[i][j] {
                assert(differs(golden, faulty, i as int, j as int));
                return 1;
            }
            j = j + 1;
        }
        i = i + 1;
    }
    0
}

/// Counts the places at which a run differs from the faultless one.
pub fn compute_differences2(right: &Vec<Vec<u8>>, output: &Vec<Vec<u8>>) -> (count: usize)
    requires
        covers(rows(right@), rows(output@)),
        mismatch_count(rows(right@), rows(output@)) <= usize::MAX,
    ensures
        count == mismatch_count(rows(right@), rows(output@)),
{
    let ghost golden = rows(right@);
    let ghost faulty = rows(output@);
    let mut count: usize = 0;
    let mut i: usize = 0;
    while i < output.len()
        invariant
            golden == rows(right@),
            faulty == rows(output@),
            covers(golden, faulty),
            mismatch_count(golden, faulty) <= usize::MAX,
            i <= output@.len(),
            count == mismatches(golden, faulty, i as nat),
        decreases output@.len() - i,
    {
        assert(faulty[i as int] == output@[i as int]@);
        assert(golden[i as int] == right@[i as int]@);
        let mut j: usize = 0;
        while j < output[i].len()
            invariant
                golden == rows(right@),
                faulty == rows(output@),
                covers(golden, faulty),
                mismatch_count(golden, faulty) <= usize::MAX,
                i < output@.len(),
                faulty[i as int] == output@[i as int]@,
                golden[i as int] == right@[i as int]@,
                j <= output@[i as int]@.len(),
                count == mismatches(golden, faulty, i as nat) + row_mismatches(
                    golden[i as int],
                    faulty[i as int],
                    j as nat,
                ),
            decreases output@[i as int]@.len() - j,
        {
            if right[i][j] != output[i][j] {
                proof {
                    lemma_mismatches_grow(
                        golden,
                        faulty,
                        i as nat,
                        (j + 1) as nat,
                        faulty.len(),
                    );
                }
                count = count + 1;
            }
            j = j + 1;
        }
        i = i + 1;
    }
    count
}

/// The share of `good` in `all`, in whole hundredths, rounded down.
pub open spec fn share(good: nat, all: nat) -> nat {
    (good * 100 / all) as nat
}

/// What a series of faulty runs showed when each was held against the
/// faultless run.
#[derive(Clone, Copy, Debug, PartialEq, Eq, Structural)]
pub struct Resilience {
    /// The number of faulty runs.
    pub inferences: usize,
    /// The number of those runs that differ from the faultless one.
    pub count_err1: usize,
    /// The number of values that all the runs emitted.
    pub bits: usize,
    /// The number of those values that differ from the faultless ones.
    pub count_err2: usize,
}

impl Resilience {
    /// No run differs more often than there are runs, and no more values
    /// differ than were emitted.
    pub open spec fn wf(self) -> bool {
        self.count_err1 <= self.inferences && self.count_err2 <= self.bits
    }

    /// The tally of no runs.
    pub fn new() -> (r: Resilience)
        ensures
            r == (Resilience { inferences: 0, count_err1: 0, bits: 0, count_err2: 0 }),
            r.wf(),
    {
        Resilience { inferences: 0, count_err1: 0, bits: 0, count_err2: 0 }
    }

    /// The tally after one more run with `cells` values, `wrong` of which
    /// differ from the faultless ones.
    pub open spec fn with_run(self, cells: nat, wrong: nat) -> Resilience {
        Resilience {
            inferences: (self.inferences + 1) as usize,
            count_err1: (self.count_err1 + if wrong > 0 { 1nat } else { 0nat }) as usize,
            bits: (self.bits + cells) as usize,
            count_err2: (self.count_err2 + wrong) as usize,
        }
    }

    /// Adds to the tally a run that emitted `cells` values, `wrong` of them
    /// not those of the faultless run. Returns whether the tally took the
    /// run in: it does not, and stays as it is, if `wrong` exceeds `cells`
    /// or if a count would no longer fit.
    pub fn record(&mut self, cells: usize, wrong: usize) -> (taken: bool)
        requires
            old(self).wf(),
        ensures
            final(self).wf(),
            taken <==> wrong <= cells && old(self).inferences < usize::MAX && old(self).bits
                + cells <= usize::MAX,
            taken ==> *final(self) == old(self).with_run(cells as nat, wrong as nat),
            !taken ==> *final(self) == *old(self),
    {
        if wrong > cells || self.inferences == usize::MAX || self.bits > usize::MAX - cells {
            return false;
        }
        self.inferences = self.inferences + 1;
        if wrong > 0 {
            self.count_err1 = self.count_err1 + 1;
        }
        self.bits = self.bits + cells;
        self.count_err2 = self.count_err2 + wrong;
        true
    }

    /// Holds the run `output` against the faultless run `right` and adds what
    /// it shows to the tally. Returns whether the tally took the run in: it
    /// does not, and stays as it is, if a count would no longer fit.
    pub fn compare(&mut self, right: &Vec<Vec<u8>>, output: &Vec<Vec<u8>>) -> (taken: bool)
        requires
            old(self).wf(),
            covers(rows(right@), rows(output@)),
        ensures
            final(self).wf(),
            taken <==> old(self).inferences < usize::MAX && old(self).bits + cells(
                rows(output@),
                output@.len(),
            ) <= usize::MAX,
            taken ==> *final(self) == old(self).with_run(
                cells(rows(output@), output@.len()),
                mismatch_count(rows(right@), rows(output@)),
            ),
            taken ==> final(self).count_err1 == old(self).count_err1 + if any_mismatch(
                rows(right@),
                rows(output@),
            ) {
                1int
            } else {
                0int
            },
            !taken ==> *final(self) == *old(self),
    {
        proof {
            lemma_mismatches_bounded(rows(right@), rows(output@), output@.len());
            lemma_count_zero_iff_no_mismatch(rows(right@), rows(output@));
        }
        match count_cells(output) {
            None => false,
            Some(total) => {
                let wrong: usize = compute_differences2(right, output);
                self.record(total, wrong)
            },
        }
    }

    /// The share of the runs that do not differ from the faultless one, in
    /// hundredths; nothing if there was no run.
    pub fn resilience1(&self) -> (r: Option<usize>)
        requires
            self.wf(),
        ensures
            r == if self.inferences == 0 {
                None
            } else {
                Some(share((self.inferences - self.count_err1) as nat, self.inferences as nat) as usize)
            },
            r matches Some(p) ==> p <= 100,
    {
        if self.inferences == 0 {
            None
        } else {
            Some(percentage(self.inferences - self.count_err1, self.inferences))
        }
    }

    /// The share of the emitted values that do not differ from the
    /// faultless ones, in hundredths; nothing if no value was emitted.
    pub fn resilience2(&self) -> (r: Option<usize>)
        requires
            self.wf(),
        ensures
            r == if self.bits == 0 {
                None
            } else {
                Some(share((self.bits - self.count_err2) as nat, self.bits as nat) as usize)
            },
            r matches Some(p) ==> p <= 100,
    {
        if self.bits == 0 {
            None
        } else {
            Some(percentage(self.bits - self.count_err2, self.bits))
        }
    }
}

/// The share of `good` in `all`, in whole hundredths, rounded down.
pub fn percentage(good: usize, all: usize) -> (r: usize)
    requires
        good <= all,
        all > 0,
    ensures
        r == share(good as nat, all as nat),
        r <= 100,
{
    let wide: u128 = (good as u128) * 100;
    let r: u128 = wide / (all as u128);
    assert(good * 100 / (all as int) <= 100) by (nonlinear_arith)
        requires
            0 <= good <= all,
            all > 0,
    ;
    r as usize
}

} // verus!
