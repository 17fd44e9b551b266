//! Sorting rows by several keys.
//!
//! Rows are compared by the text of the key columns, character by character in
//! code point order. The first key decides; a later key is asked only where
//! all keys before it tie. Rows that tie on every key keep the order in which
//! they came.

use crate::text::{char_views, slice};
use vstd::prelude::*;

verus! {

/// The rows of a table, each with its fields.
pub open spec fn grid_of(rows: Seq<Vec<Vec<char>>>) -> Seq<Seq<Seq<char>>> {
    Seq::new(rows.len(), |i: int| char_views(rows[i]@))
}

/// The sort keys as column index and direction.
pub open spec fn keys_of(keys: Seq<(usize, bool)>) -> Seq<(int, bool)> {
    Seq::new(keys.len(), |i: int| (keys[i].0 as int, keys[i].1))
}

/// How two texts stand to each other: negative if `a` comes first, positive
/// if `b` comes first, zero if they are the same. A text comes before every
/// longer text that starts with it.
pub open spec fn text_order(a: Seq<char>, b: Seq<char>) -> int
    decreases a.len(),
{
    if a.len() == 0 {
        if b.len() == 0 {
            0
        } else {
            -1
        }
    } else if b.len() == 0 {
        1
    } else if (a[0] as u32) < (b[0] as u32) {
        -1
    } else if (a[0] as u32) > (b[0] as u32) {
        1
    } else {
        text_order(a.drop_first(), b.drop_first())
    }
}

/// How two rows stand to each other under `keys`: the order of the first key
/// on which they differ, turned round for a descending key.
pub open spec fn row_order(a: Seq<Seq<char>>, b: Seq<Seq<char>>, keys: Seq<(int, bool)>) -> int
    decreases keys.len(),
{
    if keys.len() == 0 {
        0
    } else {
        let by_key = text_order(a[keys[0].0], b[keys[0].0]);
        if by_key == 0 {
            row_order(a, b, keys.drop_first())
        } else if keys[0].1 {
            by_key
        } else {
            -by_key
        }
    }
}

/// `sorted` with `row` put behind the last row that does not come after it.
pub open spec fn insert_sorted(
    sorted: Seq<Seq<Seq<char>>>,
    row: Seq<Seq<char>>,
    keys: Seq<(int, bool)>,
) -> Seq<Seq<Seq<char>>>
    decreases sorted.len(),
{
    if sorted.len() == 0 {
        seq![row]
    } else if row_order(sorted.last(), row, keys) <= 0 {
        sorted.push(row)
    } else {
        insert_sorted(sorted.drop_last(), row, keys).push(sorted.last())
    }
}

/// The rows in the order of `keys`, rows that tie in the order they had.
pub open spec fn sort_rows(rows: Seq<Seq<Seq<char>>>, keys: Seq<(int, bool)>) -> Seq<
    Seq<Seq<char>>,
>
    decreases rows.len(),
{
    if rows.len() == 0 {
        rows
    } else {
        insert_sorted(sort_rows(rows.drop_last(), keys), rows.last(), keys)
    }
}

/// Whether no row of `rows` comes after its right neighbour.
pub open spec fn ordered(rows: Seq<Seq<Seq<char>>>, keys: Seq<(int, bool)>) -> bool {
    forall|i: int| 0 <= i < rows.len() - 1 ==> row_order(#[trigger] rows[i], rows[i + 1], keys) <= 0
}

/// Turning two texts round turns their order round.
pub proof fn lemma_text_order_turns(a: Seq<char>, b: Seq<char>)
    ensures
        text_order(b, a) == -text_order(a, b),
    decreases a.len(),
{
    if a.len() > 0 && b.len() > 0 && (a[0] as u32) == (b[0] as u32) {
        lemma_text_order_turns(a.drop_first(), b.drop_first());
    }
}

/// Turning two rows round turns their order round.
pub proof fn lemma_row_order_turns(a: Seq<Seq<char>>, b: Seq<Seq<char>>, keys: Seq<(int, bool)>)
    ensures
        row_order(b, a, keys) == -row_order(a, b, keys),
    decreases keys.len(),
{
    if keys.len() > 0 {
        lemma_text_order_turns(a[keys[0].0], b[keys[0].0]);
        lemma_row_order_turns(a, b, keys.drop_first());
    }
}

/// Putting a row into ordered rows leaves them ordered.
pub proof fn lemma_insert_ordered(
    sorted: Seq<Seq<Seq<char>>>,
    row: Seq<Seq<char>>,
    keys: Seq<(int, bool)>,
)
    requires
        ordered(sorted, keys),
    ensures
        ordered(insert_sorted(sorted, row, keys), keys),
        insert_sorted(sorted, row, keys).len() == sorted.len() + 1,
        insert_sorted(sorted, row, keys).last() == row || (sorted.len() > 0 && insert_sorted(
            sorted,
            row,
            keys,
        ).last() == sorted.last()),
    decreases sorted.len(),
{
    let now = insert_sorted(sorted, row, keys);
    if sorted.len() == 0 {
    } else if row_order(sorted.last(), row, keys) <= 0 {
        assert forall|i: int| 0 <= i < now.len() - 1 implies row_order(
            #[trigger] now[i],
            now[i + 1],
            keys,
        ) <= 0 by {
            if i < sorted.len() - 1 {
                assert(now[i] == sorted[i]);
                assert(now[i + 1] == sorted[i + 1]);
            }
        }
    } else {
        let front = sorted.drop_last();
        assert forall|i: int| 0 <= i < front.len() - 1 implies row_order(
            #[trigger] front[i],
            front[i + 1],
            keys,
        ) <= 0 by {
            assert(front[i] == sorted[i]);
            assert(front[i + 1] == sorted[i + 1]);
        }
        lemma_insert_ordered(front, row, keys);
        let inner = insert_sorted(front, row, keys);
        lemma_row_order_turns(sorted.last(), row, keys);
        assert forall|i: int| 0 <= i < now.len() - 1 implies row_order(
            #[trigger] now[i],
            now[i + 1],
            keys,
        ) <= 0 by {
            if i < inner.len() - 1 {
                assert(now[i] == inner[i]);
                assert(now[i + 1] == inner[i + 1]);
            } else {
                assert(now[i] == inner.last());
                assert(now[i + 1] == sorted.last());
                if inner.last() != row {
                    assert(front.last() == sorted[sorted.len() - 2]);
                }
            }
        }
    }
}

/// Sorted rows are in order: no row comes after its right neighbour.
pub proof fn law_sort_ordered(rows: Seq<Seq<Seq<char>>>, keys: Seq<(int, bool)>)
    ensures
        ordered(sort_rows(rows, keys), keys),
        sort_rows(rows, keys).len() == rows.len(),
    decreases rows.len(),
{
    if rows.len() > 0 {
        law_sort_ordered(rows.drop_last(), keys);
        lemma_insert_ordered(sort_rows(rows.drop_last(), keys), rows.last(), keys);
    }
}

/// Sorting rows that are in order already leaves them as they are: rows
/// that tie keep their places.
pub proof fn law_sort_keeps_ordered_rows(rows: Seq<Seq<Seq<char>>>, keys: Seq<(int, bool)>)
    requires
        ordered(rows, keys),
    ensures
        sort_rows(rows, keys) == rows,
    decreases rows.len(),
{
    if rows.len() > 0 {
        let front = rows.drop_last();
        assert forall|i: int| 0 <= i < front.len() - 1 implies row_order(
            #[trigger] front[i],
            front[i + 1],
            keys,
        ) <= 0 by {
            assert(front[i] == rows[i]);
            assert(front[i + 1] == rows[i + 1]);
        }
        law_sort_keeps_ordered_rows(front, keys);
        if front.len() > 0 {
            assert(front.last() == rows[rows.len() - 2]);
            assert(row_order(rows[rows.len() - 2], rows[rows.len() - 2 + 1], keys) <= 0);
        }
        assert(front.push(rows.last()) =~= rows);
    }
}

/// Putting a row into a list adds that row and nothing else.
pub proof fn lemma_insert_keeps(
    sorted: Seq<Seq<Seq<char>>>,
    row: Seq<Seq<char>>,
    keys: Seq<(int, bool)>,
)
    ensures
        insert_sorted(sorted, row, keys).to_multiset() == sorted.to_multiset().insert(row),
    decreases sorted.len(),
{
    broadcast use vstd::seq_lib::group_to_multiset_ensures;

    if sorted.len() == 0 {
        assert(seq![row] =~= sorted.push(row));
    } else if row_order(sorted.last(), row, keys) <= 0 {
    } else {
        let front = sorted.drop_last();
        lemma_insert_keeps(front, row, keys);
        assert(sorted == front.push(sorted.last()));
        assert(insert_sorted(sorted, row, keys).to_multiset() =~= sorted.to_multiset().insert(row));
    }
}

/// Sorting keeps every row, as often as it occurs.
pub proof fn law_sort_permutes(rows: Seq<Seq<Seq<char>>>, keys: Seq<(int, bool)>)
    ensures
        sort_rows(rows, keys).to_multiset() == rows.to_multiset(),
    decreases rows.len(),
{
    broadcast use vstd::seq_lib::group_to_multiset_ensures;

    if rows.len() > 0 {
        law_sort_permutes(rows.drop_last(), keys);
        lemma_insert_keeps(sort_rows(rows.drop_last(), keys), rows.last(), keys);
        assert(rows == rows.drop_last().push(rows.last()));
    }
}

/// Where `insert_sorted` puts the row: at the index behind which every row
/// comes after it, and before which the nearest row does not.
pub proof fn lemma_insert_at(
    sorted: Seq<Seq<Seq<char>>>,
    row: Seq<Seq<char>>,
    keys: Seq<(int, bool)>,
    at: int,
)
    requires
        0 <= at <= sorted.len(),
        forall|j: int| at <= j < sorted.len() ==> row_order(#[trigger] sorted[j], row, keys) > 0,
        at > 0 ==> row_order(sorted[at - 1], row, keys) <= 0,
    ensures
        insert_sorted(sorted, row, keys) == sorted.insert(at, row),
    decreases sorted.len(),
{
    if sorted.len() == 0 {
        assert(sorted.insert(at, row) =~= seq![row]);
    } else if row_order(sorted.last(), row, keys) <= 0 {
        assert(at == sorted.len()) by {
            if at < sorted.len() {
                assert(row_order(sorted[sorted.len() - 1], row, keys) > 0);
            }
        }
        assert(sorted.insert(at, row) =~= sorted.push(row));
    } else {
        let front = sorted.drop_last();
        assert(forall|j: int| at <= j < front.len() ==> front[j] == sorted[j]);
        if at > 0 {
            assert(front[at - 1] == sorted[at - 1]);
        }
        lemma_insert_at(front, row, keys, at);
        assert(sorted.insert(at, row) =~= front.insert(at, row).push(sorted.last()));
    }
}

/// How two texts stand to each other: -1, 0 or 1.
pub fn order_texts(a: &Vec<char>, b: &Vec<char>) -> (r: i8)
    ensures
        r as int == text_order(a@, b@),
        -1 <= r <= 1,
{
    let mut i: usize = 0;
    proof {
        assert(a@.subrange(0, a.len() as int) == a@);
        assert(b@.subrange(0, b.len() as int) == b@);
    }
    while i < a.len() && i < b.len()
        invariant
            i <= a.len(),
            i <= b.len(),
            text_order(a@, b@) == text_order(
                a@.subrange(i as int, a.len() as int),
                b@.subrange(i as int, b.len() as int),
            ),
        decreases a.len() - i,
    {
        let x: u32 = a[i] as u32;
        let y: u32 = b[i] as u32;
        if x < y {
            return -1;
        }
        if x > y {
            return 1;
        }
        assert(a@.subrange(i as int, a.len() as int).drop_first() == a@.subrange(
            i + 1,
            a.len() as int,
        ));
        assert(b@.subrange(i as int, b.len() as int).drop_first() == b@.subrange(
            i + 1,
            b.len() as int,
        ));
        i += 1;
    }
    if i < a.len() {
        1
    } else if i < b.len() {
        -1
    } else {
        0
    }
}

/// How two rows stand to each other under `keys`: -1, 0 or 1.
pub fn order_rows(a: &Vec<Vec<char>>, b: &Vec<Vec<char>>, keys: &Vec<(usize, bool)>) -> (r: i8)
    requires
        forall|k: int| 0 <= k < keys.len() ==> (#[trigger] keys[k]).0 < a.len() && keys[k].0
            < b.len(),
    ensures
        r as int == row_order(char_views(a@), char_views(b@), keys_of(keys@)),
        -1 <= r <= 1,
{
    let ghost all = keys_of(keys@);
    let mut k: usize = 0;
    proof {
        assert(all.subrange(0, all.len() as int) == all);
    }
    while k < keys.len()
        invariant
            k <= keys.len(),
            all == keys_of(keys@),
            forall|j: int| 0 <= j < keys.len() ==> (#[trigger] keys[j]).0 < a.len() && keys[j].0
                < b.len(),
            row_order(char_views(a@), char_views(b@), all) == row_order(
                char_views(a@),
                char_views(b@),
                all.subrange(k as int, all.len() as int),
            ),
        decreases keys.len() - k,
    {
        let ghost rest = all.subrange(k as int, all.len() as int);
        assert(rest.drop_first() == all.subrange(k + 1, all.len() as int));
        assert(rest[0] == (keys[k as int].0 as int, keys[k as int].1));
        let (column, ascending) = keys[k];
        assert(char_views(a@)[column as int] == a[column as int]@);
        assert(char_views(b@)[column as int] == b[column as int]@);
        let by_key = order_texts(&a[column], &b[column]);
        if by_key != 0 {
            return if ascending {
                by_key
            } else {
                -by_key
            };
        }
        k += 1;
    }
    0
}

/// A copy of a row.
pub fn copy_row(row: &Vec<Vec<char>>) -> (out: Vec<Vec<char>>)
    ensures
        char_views(out@) == char_views(row@),
        out.len() == row.len(),
{
    let mut out: Vec<Vec<char>> = Vec::new();
    let mut i: usize = 0;
    while i < row.len()
        invariant
            i <= row.len(),
            out.len() == i,
            forall|k: int| 0 <= k < i ==> out[k]@ == row[k]@,
        decreases row.len() - i,
    {
        let field = slice(&row[i], 0, row[i].len());
        assert(row[i as int]@.subrange(0, row[i as int].len() as int) == row[i as int]@);
        out.push(field);
        i += 1;
    }
    assert(char_views(out@) =~= char_views(row@));
    out
}

/// Whether every row has a field at every key's column.
pub open spec fn keys_fit(rows: Seq<Vec<Vec<char>>>, keys: Seq<(usize, bool)>) -> bool {
    forall|i: int, k: int|
        0 <= i < rows.len() && 0 <= k < keys.len() ==> (#[trigger] keys[k]).0 < (
        #[trigger] rows[i]).len()
}

/// The rows in the order of `keys`, rows that tie in the order they had.
pub fn sort_by_keys(rows: &Vec<Vec<Vec<char>>>, keys: &Vec<(usize, bool)>) -> (out: Vec<
    Vec<Vec<char>>,
>)
    requires
        keys_fit(rows@, keys@),
    ensures
        grid_of(out@) == sort_rows(grid_of(rows@), keys_of(keys@)),
        out.len() == rows.len(),
        forall|i: int| 0 <= i < out.len() ==> exists|j: int|
            0 <= j < rows.len() && (#[trigger] out[i]).len() == rows[j].len(),
{
    let ghost all = grid_of(rows@);
    let ghost by = keys_of(keys@);
    let mut out: Vec<Vec<Vec<char>>> = Vec::new();
    let mut i: usize = 0;
    while i < rows.len()
        invariant
            i <= rows.len(),
            out.len() == i,
            all == grid_of(rows@),
            by == keys_of(keys@),
            keys_fit(rows@, keys@),
            keys_fit(out@, keys@),
            grid_of(out@) == sort_rows(all.take(i as int), by),
            forall|n: int| 0 <= n < out.len() ==> exists|j: int|
                0 <= j < rows.len() && (#[trigger] out[n]).len() == rows[j].len(),
        decreases rows.len() - i,
    {
        assert(all.take(i + 1).drop_last() == all.take(i as int));
        assert(all.take(i + 1).last() == char_views(rows[i as int]@));
        let row = copy_row(&rows[i]);
        let ghost before = out@;
        let mut at: usize = out.len();
        while at > 0 && order_rows(&out[at - 1], &row, keys) > 0
            invariant
                at <= out.len(),
                out@ == before,
                by == keys_of(keys@),
                keys_fit(out@, keys@),
                row.len() == rows[i as int].len(),
                i < rows.len(),
                keys_fit(rows@, keys@),
                forall|j: int|
                    at <= j < out.len() ==> row_order(
                        #[trigger] grid_of(out@)[j],
                        char_views(row@),
                        by,
                    ) > 0,
            decreases at,
        {
            assert(grid_of(out@)[at - 1] == char_views(out[at - 1]@));
            at -= 1;
        }
        proof {
            if at > 0 {
                assert(grid_of(out@)[at - 1] == char_views(out[at - 1]@));
            }
            lemma_insert_at(grid_of(out@), char_views(row@), by, at as int);
        }
        out.insert(at, row);
        assert(grid_of(out@) =~= grid_of(before).insert(at as int, char_views(row@)));
        assert forall|n: int| 0 <= n < out.len() implies exists|j: int|
            0 <= j < rows.len() && (#[trigger] out[n]).len() == rows[j].len() by {
            if n < at {
                assert(out[n] == before[n]);
            } else if n == at {
                assert(out[n].len() == rows[i as int].len());
            } else {
                assert(out[n] == before[n - 1]);
            }
        }
        assert(keys_fit(out@, keys@)) by {
            assert forall|n: int, k: int|
                0 <= n < out.len() && 0 <= k < keys.len() implies (#[trigger] keys[k]).0 < (
            #[trigger] out[n]).len() by {
                if n < at {
                    assert(out[n] == before[n]);
                } else if n == at {
                    assert(out[n].len() == rows[i as int].len());
                } else {
                    assert(out[n] == before[n - 1]);
                }
            }
        }
        i += 1;
    }
    assert(all.take(rows.len() as int) == all);
    out
}

} // verus!
