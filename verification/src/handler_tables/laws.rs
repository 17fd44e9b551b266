//! What holds of every statement on every table.

use crate::errors::tperrors::ErrorKind;
use crate::handler_tables::change::{
    all_known, data_lines, delete, insert, inserted_fields, inserted_lines, reaches, remaining,
    source, update, updated, updated_lines,
};
use crate::handler_tables::query::{
    body_of, chosen_rows, header_of, is_wildcard, lemma_sort_keys_fail, projected, requested,
    resolve_columns, select, sort_keys,
};
use crate::handler_tables::rows::{index_of, lemma_index_from, selected};
use crate::sorter::arrange::sort_rows;
use crate::text::splitting::{join, lines, split};
use vstd::prelude::*;

verus! {

/// The indices that a list of columns resolves to are the header positions
/// of the columns, one for one and in the order of the list.
pub proof fn lemma_resolved_columns(header: Seq<Seq<char>>, columns: Seq<Seq<char>>)
    requires
        resolve_columns(header, columns) is Some,
    ensures
        resolve_columns(header, columns)->0.len() == columns.len(),
        forall|i: int|
            0 <= i < columns.len() ==> index_of(header, #[trigger] columns[i]) == Some(
                resolve_columns(header, columns)->0[i],
            ) && 0 <= resolve_columns(header, columns)->0[i] < header.len()
                && header[resolve_columns(header, columns)->0[i]] == columns[i],
    decreases columns.len(),
{
    if columns.len() > 0 {
        lemma_resolved_columns(header, columns.drop_last());
        lemma_index_from(header, columns.last(), 0);
        let before = resolve_columns(header, columns.drop_last())->0;
        let now = resolve_columns(header, columns)->0;
        assert forall|i: int| 0 <= i < columns.len() implies index_of(
            header,
            #[trigger] columns[i],
        ) == Some(now[i]) && 0 <= now[i] < header.len() && header[now[i]] == columns[i] by {
            if i < columns.len() - 1 {
                assert(columns[i] == columns.drop_last()[i]);
                assert(now[i] == before[i]);
            }
        }
    }
}

/// The rows that a `SELECT` shows, each with all its fields: the rows that
/// the statement applies to, sorted if the statement asks for it.
pub open spec fn shown_rows(
    text: Seq<char>,
    condition: Option<Seq<char>>,
    sorting: Option<Seq<(Seq<char>, bool)>>,
) -> Seq<Seq<Seq<char>>> {
    let header = header_of(text)->0;
    let kept = chosen_rows(header, body_of(text), condition)->Ok_0;
    match sorting {
        None => kept,
        Some(methods) => sort_rows(kept, sort_keys(header, methods)->0),
    }
}

/// A `SELECT` of named columns gives them in the order asked, whatever their
/// order in the header: the first row of the result is the list of columns as
/// asked, and the field at place `i` of every other row is the field that the
/// row has under the column asked at place `i`.
pub proof fn law_select_keeps_requested_order(
    text: Seq<char>,
    columns: Seq<Seq<char>>,
    condition: Option<Seq<char>>,
    sorting: Option<Seq<(Seq<char>, bool)>>,
)
    requires
        select(text, columns, condition, sorting) is Ok,
        !is_wildcard(columns),
    ensures
        select(text, columns, condition, sorting)->Ok_0.len() == shown_rows(
            text,
            condition,
            sorting,
        ).len() + 1,
        select(text, columns, condition, sorting)->Ok_0[0] == columns,
        forall|r: int, i: int|
            #![trigger select(text, columns, condition, sorting)->Ok_0[r][i]]
            1 <= r < select(text, columns, condition, sorting)->Ok_0.len() && 0 <= i
                < columns.len() ==> select(text, columns, condition, sorting)->Ok_0[r].len()
                == columns.len() && index_of(header_of(text)->0, columns[i]) is Some && select(
                text,
                columns,
                condition,
                sorting,
            )->Ok_0[r][i] == shown_rows(text, condition, sorting)[r - 1][index_of(
                header_of(text)->0,
                columns[i],
            )->0],
{
    let header = header_of(text)->0;
    let wanted = requested(header, columns)->0;
    let out = select(text, columns, condition, sorting)->Ok_0;
    let shown = shown_rows(text, condition, sorting);
    lemma_resolved_columns(header, columns);
    assert(out == projected(header, shown, wanted));
    assert(out[0] =~= columns);
}

/// What `inserted_lines` gives has one line for each row of values, made by
/// `inserted_fields`.
pub proof fn lemma_inserted_lines(
    header: Seq<Seq<char>>,
    columns: Seq<Seq<char>>,
    tuples: Seq<Seq<Seq<char>>>,
)
    requires
        inserted_lines(header, columns, tuples) is Some,
    ensures
        inserted_lines(header, columns, tuples)->0.len() == tuples.len(),
        forall|r: int|
            0 <= r < tuples.len() ==> (#[trigger] inserted_lines(header, columns, tuples)->0[r])
                == inserted_fields(header, columns, tuples[r]),
    decreases tuples.len(),
{
    if tuples.len() > 0 {
        lemma_inserted_lines(header, columns, tuples.drop_last());
        let before = inserted_lines(header, columns, tuples.drop_last())->0;
        let now = inserted_lines(header, columns, tuples)->0;
        assert forall|r: int| 0 <= r < tuples.len() implies (#[trigger] now[r]) == inserted_fields(
            header,
            columns,
            tuples[r],
        ) by {
            if r < tuples.len() - 1 {
                assert(now[r] == before[r]);
                assert(tuples[r] == tuples.drop_last()[r]);
            }
        }
    }
}

/// An `INSERT` that names some of the table's columns gives, for each row of
/// values, a line with one field for every column of the header, in header
/// order: the value given for the column, or the empty text for a column
/// that the statement does not name.
pub proof fn law_insert_fills_unnamed_columns(
    text: Seq<char>,
    columns: Seq<Seq<char>>,
    tuples: Seq<Seq<Seq<char>>>,
)
    requires
        insert(text, columns, tuples) is Ok,
        all_known(header_of(text)->0, columns),
    ensures
        insert(text, columns, tuples)->Ok_0.len() == tuples.len(),
        forall|r: int|
            0 <= r < tuples.len() ==> (#[trigger] insert(text, columns, tuples)->Ok_0[r]).len()
                == header_of(text)->0.len(),
        forall|r: int, h: int|
            #![trigger insert(text, columns, tuples)->Ok_0[r][h]]
            0 <= r < tuples.len() && 0 <= h < header_of(text)->0.len() ==> insert(
                text,
                columns,
                tuples,
            )->Ok_0[r][h] == match index_of(columns, header_of(text)->0[h]) {
                Some(k) => tuples[r][k],
                None => Seq::<char>::empty(),
            },
{
    let header = header_of(text)->0;
    lemma_inserted_lines(header, columns, tuples);
    let out = insert(text, columns, tuples)->Ok_0;
    assert forall|r: int, h: int|
        #![trigger out[r][h]]
        0 <= r < tuples.len() && 0 <= h < header.len() implies out[r][h] == match index_of(
        columns,
        header[h],
    ) {
        Some(k) => tuples[r][k],
        None => Seq::<char>::empty(),
    } by {
        assert(out[r] == inserted_fields(header, columns, tuples[r]));
        assert(source(header, columns, h) == index_of(columns, header[h]));
    }
}

/// Without a condition, a `DELETE` leaves no line.
pub proof fn lemma_nothing_remains(header: Seq<Seq<char>>, data: Seq<Seq<char>>)
    ensures
        remaining(header, None, data) == Ok::<Seq<Seq<char>>, ErrorKind>(Seq::empty()),
    decreases data.len(),
{
    if data.len() > 0 {
        lemma_nothing_remains(header, data.drop_last());
    }
}

/// A `DELETE` without a condition leaves the header line and nothing else.
pub proof fn law_delete_without_condition(text: Seq<char>)
    requires
        header_of(text) is Some,
    ensures
        delete(text, None) == Ok::<Seq<Seq<char>>, ErrorKind>(seq![lines(text)[0]]),
{
    lemma_nothing_remains(header_of(text)->0, data_lines(text));
    assert(seq![lines(text)[0]] + Seq::<Seq<char>>::empty() =~= seq![lines(text)[0]]);
}

/// Where the condition holds of no line, every line remains.
pub proof fn lemma_everything_remains(
    header: Seq<Seq<char>>,
    condition: Seq<char>,
    data: Seq<Seq<char>>,
)
    requires
        forall|i: int|
            0 <= i < data.len() ==> selected(header, split(#[trigger] data[i], ','), Some(condition))
                == Ok::<bool, ErrorKind>(false),
    ensures
        remaining(header, Some(condition), data) == Ok::<Seq<Seq<char>>, ErrorKind>(data),
    decreases data.len(),
{
    if data.len() > 0 {
        assert forall|i: int| 0 <= i < data.drop_last().len() implies selected(
            header,
            split(#[trigger] data.drop_last()[i], ','),
            Some(condition),
        ) == Ok::<bool, ErrorKind>(false) by {
            assert(data.drop_last()[i] == data[i]);
        }
        lemma_everything_remains(header, condition, data.drop_last());
        assert(selected(header, split(data[data.len() - 1], ','), Some(condition)) == Ok::<
            bool,
            ErrorKind,
        >(false));
        assert(data.drop_last().push(data.last()) =~= data);
    } else {
        assert(data =~= Seq::empty());
    }
}

/// A `DELETE` whose condition holds of no row leaves every line of the table
/// as it is.
pub proof fn law_delete_where_nothing_matches(text: Seq<char>, condition: Seq<char>)
    requires
        header_of(text) is Some,
        forall|i: int|
            1 <= i < lines(text).len() ==> selected(
                header_of(text)->0,
                split(#[trigger] lines(text)[i], ','),
                Some(condition),
            ) == Ok::<bool, ErrorKind>(false),
    ensures
        delete(text, Some(condition)) == Ok::<Seq<Seq<char>>, ErrorKind>(lines(text)),
{
    let header = header_of(text)->0;
    let data = data_lines(text);
    assert forall|i: int| 0 <= i < data.len() implies selected(
        header,
        split(#[trigger] data[i], ','),
        Some(condition),
    ) == Ok::<bool, ErrorKind>(false) by {
        assert(data[i] == lines(text)[i + 1]);
    }
    lemma_everything_remains(header, condition, data);
    assert(seq![lines(text)[0]] + data =~= lines(text));
}

/// Sorting by a column that the header lacks never succeeds: the `SELECT`
/// ends in a column error, unless a row fails before the sort keys are looked
/// up.
pub proof fn law_sort_by_missing_column(
    text: Seq<char>,
    columns: Seq<Seq<char>>,
    condition: Option<Seq<char>>,
    methods: Seq<(Seq<char>, bool)>,
    k: int,
)
    requires
        0 <= k < methods.len(),
        header_of(text) is Some ==> index_of(header_of(text)->0, methods[k].0) is None,
    ensures
        select(text, columns, condition, Some(methods)) is Err,
        select(text, columns, condition, Some(methods)) == Err::<
            Seq<Seq<Seq<char>>>,
            ErrorKind,
        >(ErrorKind::Column) || (header_of(text) is Some && chosen_rows(
            header_of(text)->0,
            body_of(text),
            condition,
        ) is Err),
{
    if header_of(text) is Some {
        lemma_sort_keys_fail(header_of(text)->0, methods, k);
    }
}

/// Without a condition, where every line has a field at every column that
/// is set, an `UPDATE` gives every line with its fields updated.
pub proof fn lemma_every_line_updated(
    header: Seq<Seq<char>>,
    columns: Seq<Seq<char>>,
    values: Seq<Seq<char>>,
    data: Seq<Seq<char>>,
)
    requires
        forall|i: int|
            0 <= i < data.len() ==> reaches(
                header,
                columns,
                split(#[trigger] data[i], ',').len() as int,
            ),
    ensures
        updated_lines(header, columns, values, None, data) is Ok,
        updated_lines(header, columns, values, None, data)->Ok_0.len() == data.len(),
        forall|i: int|
            0 <= i < data.len() ==> (#[trigger] updated_lines(
                header,
                columns,
                values,
                None,
                data,
            )->Ok_0[i]) == join(updated(header, columns, values, split(data[i], ',')), seq![',']),
    decreases data.len(),
{
    if data.len() > 0 {
        let front = data.drop_last();
        assert forall|i: int| 0 <= i < front.len() implies reaches(
            header,
            columns,
            split(#[trigger] front[i], ',').len() as int,
        ) by {
            assert(front[i] == data[i]);
        }
        lemma_every_line_updated(header, columns, values, front);
        assert(reaches(header, columns, split(data[data.len() - 1], ',').len() as int));
        let before = updated_lines(header, columns, values, None, front)->Ok_0;
        let now = updated_lines(header, columns, values, None, data)->Ok_0;
        assert forall|i: int| 0 <= i < data.len() implies (#[trigger] now[i]) == join(
            updated(header, columns, values, split(data[i], ',')),
            seq![','],
        ) by {
            if i < data.len() - 1 {
                assert(now[i] == before[i]);
                assert(front[i] == data[i]);
            }
        }
    }
}

/// An `UPDATE` without a condition rewrites every row and adds or drops
/// none: where every row has a field at every column that is set, the result
/// is the header line, then each row with the set columns replaced and every
/// other field kept. A row may be shorter than the header.
pub proof fn law_update_without_condition(
    text: Seq<char>,
    columns: Seq<Seq<char>>,
    values: Seq<Seq<char>>,
)
    requires
        header_of(text) is Some,
        columns.len() <= values.len(),
        forall|i: int|
            1 <= i < lines(text).len() ==> reaches(
                header_of(text)->0,
                columns,
                split(#[trigger] lines(text)[i], ',').len() as int,
            ),
    ensures
        update(text, columns, values, None) is Ok,
        update(text, columns, values, None)->Ok_0.len() == lines(text).len(),
        update(text, columns, values, None)->Ok_0[0] == lines(text)[0],
        forall|i: int|
            1 <= i < lines(text).len() ==> (#[trigger] update(text, columns, values, None)->Ok_0[i])
                == join(
                updated(header_of(text)->0, columns, values, split(lines(text)[i], ',')),
                seq![','],
            ),
{
    let header = header_of(text)->0;
    let data = data_lines(text);
    assert forall|i: int| 0 <= i < data.len() implies reaches(
        header,
        columns,
        split(#[trigger] data[i], ',').len() as int,
    ) by {
        assert(data[i] == lines(text)[i + 1]);
    }
    lemma_every_line_updated(header, columns, values, data);
    let rows = updated_lines(header, columns, values, None, data)->Ok_0;
    let out = update(text, columns, values, None)->Ok_0;
    assert(out == seq![lines(text)[0]] + rows);
    assert forall|i: int| 1 <= i < lines(text).len() implies (#[trigger] out[i]) == join(
        updated(header, columns, values, split(lines(text)[i], ',')),
        seq![','],
    ) by {
        assert(out[i] == rows[i - 1]);
        assert(data[i - 1] == lines(text)[i]);
    }
}

} // verus!
