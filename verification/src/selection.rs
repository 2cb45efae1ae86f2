//! The order in which a list of selectors picks from a list of candidates.
//!
//! A table says, for each selector and each candidate, whether the selector
//! accepts the candidate. The selectors are taken in their order; each adds
//! the candidates that it accepts and that no earlier selector has added, in
//! the candidates' order. So a candidate that several selectors accept
//! stands once, where the first of them put it.

use vstd::prelude::*;
use crate::seqs::{
    as_ints, lemma_filter_distinct, lemma_filter_members, lemma_filter_next, lemma_filter_none,
    lemma_map_push, positions,
};

verus! {

/// A table of rows, as contracts see it.
pub open spec fn rows(table: Seq<Vec<bool>>) -> Seq<Seq<bool>> {
    table.map_values(|row: Vec<bool>| row@)
}

/// Which candidates a row adds: those that it accepts and that are not
/// among `taken`.
pub open spec fn adds(row: Seq<bool>, taken: Seq<int>) -> spec_fn(int) -> bool {
    |j: int| row[j] && !taken.contains(j)
}

/// The candidates that `row` adds to `taken`, in their order.
pub open spec fn scan(row: Seq<bool>, taken: Seq<int>) -> Seq<int> {
    positions(row.len()).filter(adds(row, taken))
}

/// The candidates that the rows of `table` pick, in first-match order.
pub open spec fn first_match_order(table: Seq<Seq<bool>>) -> Seq<int>
    decreases table.len(),
{
    if table.len() == 0 {
        Seq::empty()
    } else {
        let taken = first_match_order(table.drop_last());
        taken + scan(table.last(), taken)
    }
}

/// Whether some row of `table` accepts the candidate `j`.
pub open spec fn picked(table: Seq<Seq<bool>>, j: int) -> bool {
    exists|i: int| 0 <= i < table.len() && 0 <= j < (#[trigger] table[i]).len() && table[i][j]
}

/// Whether `j` is among the first `n` entries of `chosen`.
fn listed(chosen: &Vec<usize>, n: usize, j: usize) -> (r: bool)
    requires
        n <= chosen@.len(),
    ensures
        r == as_ints(chosen@).take(n as int).contains(j as int),
{
    let ghost taken = as_ints(chosen@).take(n as int);
    let mut k: usize = 0;
    while k < n
        invariant
            k <= n <= chosen@.len(),
            taken == as_ints(chosen@).take(n as int),
            forall|m: int| 0 <= m < k ==> taken[m] != j as int,
        decreases n - k,
    {
        if chosen[k] == j {
            assert(taken[k as int] == j as int);
            return true;
        }
        k += 1;
    }
    false
}

/// The candidates that the rows of `table` pick, in first-match order.
pub fn pick_in_order(table: &Vec<Vec<bool>>) -> (chosen: Vec<usize>)
    ensures
        as_ints(chosen@) == first_match_order(rows(table@)),
{
    let mut chosen: Vec<usize> = Vec::new();
    let mut i: usize = 0;
    assert(rows(table@).take(0) =~= Seq::<Seq<bool>>::empty());
    assert(as_ints(chosen@) =~= Seq::<int>::empty());
    while i < table.len()
        invariant
            i <= table@.len(),
            as_ints(chosen@) == first_match_order(rows(table@).take(i as int)),
        decreases table@.len() - i,
    {
        let ghost taken = as_ints(chosen@);
        let ghost row = table@[i as int]@;
        let n = chosen.len();
        let mut j: usize = 0;
        proof {
            lemma_filter_none(positions(row.len()), adds(row, taken));
            assert(as_ints(chosen@) =~= taken + positions(row.len()).take(0).filter(
                adds(row, taken),
            ));
        }
        while j < table[i].len()
            invariant
                i < table@.len(),
                row == table@[i as int]@,
                j <= row.len(),
                n == taken.len(),
                n <= chosen@.len(),
                as_ints(chosen@) == taken + positions(row.len()).take(j as int).filter(
                    adds(row, taken),
                ),
            decreases row.len() - j,
        {
            let ghost before = chosen@;
            proof {
                lemma_filter_next(positions(row.len()), adds(row, taken), j as int);
                assert(as_ints(chosen@).take(n as int) =~= taken);
            }
            if table[i][j] && !listed(&chosen, n, j) {
                chosen.push(j);
                proof {
                    lemma_map_push(before, j, |j: usize| j as int);
                    assert(as_ints(chosen@) =~= taken + positions(row.len()).take(j + 1).filter(
                        adds(row, taken),
                    ));
                }
            }
            j += 1;
        }
        proof {
            assert(positions(row.len()).take(row.len() as int) =~= positions(row.len()));
            let upto = rows(table@).take(i + 1);
            assert(upto.drop_last() =~= rows(table@).take(i as int));
            assert(upto.last() == row);
        }
        i += 1;
    }
    assert(rows(table@).take(i as int) =~= rows(table@));
    chosen
}

/// Whether some row of `table` accepts the candidate `j`.
pub fn is_picked(table: &Vec<Vec<bool>>, j: usize) -> (r: bool)
    ensures
        r == picked(rows(table@), j as int),
{
    let mut i: usize = 0;
    while i < table.len()
        invariant
            i <= table@.len(),
            forall|k: int|
                0 <= k < i ==> !(j < (#[trigger] rows(table@)[k]).len() && rows(table@)[k][j as int]),
        decreases table@.len() - i,
    {
        if j < table[i].len() && table[i][j] {
            assert(rows(table@)[i as int] == table@[i as int]@);
            return true;
        }
        assert(rows(table@)[i as int] == table@[i as int]@);
        i += 1;
    }
    false
}

/// What is picked: exactly the candidates that some row accepts.
pub proof fn lemma_picks_what_some_row_accepts(table: Seq<Seq<bool>>)
    ensures
        forall|j: int| #[trigger] first_match_order(table).contains(j) <==> picked(table, j),
    decreases table.len(),
{
    if table.len() == 0 {
        assert forall|j: int| #[trigger] first_match_order(table).contains(j) <==> picked(
            table,
            j,
        ) by {}
    } else {
        let init = table.drop_last();
        let row = table.last();
        let taken = first_match_order(init);
        lemma_picks_what_some_row_accepts(init);
        lemma_filter_members(positions(row.len()), adds(row, taken));
        assert forall|j: int| #[trigger] first_match_order(table).contains(j) <==> picked(
            table,
            j,
        ) by {
            let all = first_match_order(table);
            if all.contains(j) {
                let k = choose|k: int| 0 <= k < all.len() && all[k] == j;
                if k < taken.len() {
                    assert(taken[k] == j);
                    assert(taken.contains(j));
                    let i = choose|i: int|
                        0 <= i < init.len() && 0 <= j < (#[trigger] init[i]).len() && init[i][j];
                    assert(table[i] == init[i]);
                } else {
                    assert(scan(row, taken)[k - taken.len()] == j);
                    assert(scan(row, taken).contains(j));
                    let m = choose|m: int|
                        0 <= m < positions(row.len()).len() && positions(row.len())[m] == j;
                    assert(table[table.len() - 1] == row);
                }
            }
            if picked(table, j) {
                let i = choose|i: int|
                    0 <= i < table.len() && 0 <= j < (#[trigger] table[i]).len() && table[i][j];
                if i < init.len() {
                    assert(init[i] == table[i]);
                    assert(picked(init, j));
                    assert(taken.contains(j));
                    let k = choose|k: int| 0 <= k < taken.len() && taken[k] == j;
                    assert(all[k] == j);
                } else if taken.contains(j) {
                    let k = choose|k: int| 0 <= k < taken.len() && taken[k] == j;
                    assert(all[k] == j);
                } else {
                    assert(positions(row.len())[j] == j);
                    assert(positions(row.len()).contains(j));
                    assert(scan(row, taken).contains(j));
                    let k = choose|k: int| 0 <= k < scan(row, taken).len() && scan(row, taken)[k]
                        == j;
                    assert(all[taken.len() + k] == j);
                }
            }
        }
    }
}

/// No candidate is picked twice.
pub proof fn lemma_picks_each_once(table: Seq<Seq<bool>>)
    ensures
        first_match_order(table).no_duplicates(),
    decreases table.len(),
{
    if table.len() > 0 {
        let init = table.drop_last();
        let row = table.last();
        let taken = first_match_order(init);
        let more = scan(row, taken);
        lemma_picks_each_once(init);
        assert(positions(row.len()).no_duplicates());
        lemma_filter_distinct(positions(row.len()), adds(row, taken));
        lemma_filter_members(positions(row.len()), adds(row, taken));
        let all = taken + more;
        assert forall|a: int, b: int| 0 <= a < all.len() && 0 <= b < all.len() && a != b implies all[a]
            != all[b] by {
            if a < taken.len() && b >= taken.len() {
                assert(more[b - taken.len()] == all[b]);
                assert(more.contains(all[b]));
                assert(taken[a] == all[a]);
            } else if b < taken.len() && a >= taken.len() {
                assert(more[a - taken.len()] == all[a]);
                assert(more.contains(all[a]));
                assert(taken[b] == all[b]);
            } else if a < taken.len() {
                assert(taken[a] == all[a] && taken[b] == all[b]);
            } else {
                assert(more[a - taken.len()] == all[a] && more[b - taken.len()] == all[b]);
            }
        }
    }
}

} // verus!
