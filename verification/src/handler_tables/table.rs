//! A table: the path of its file and the text that the file holds.

use crate::errors::tperrors::{column, generic, ErrorKind, Tperrors};
use crate::handler_tables::change::{
    apply_changes, data_lines, delete, insert, insert_fields, inserted_fields, inserted_lines,
    is_set, lemma_inserted_fails, lemma_remaining_fails, lemma_updated_fails, long_enough,
    new_values, reaches, reaches_changes, remaining, source, sources, update, updated,
    updated_line, updated_lines,
};
use crate::handler_tables::query::{
    body_of, body_rows, choose_rows, header_of, indices_fit, indices_of, project, project_row,
    projected, resolve_requested, resolve_sort_keys, rows_reach_columns, rows_reach_keys, select,
    sorting_of,
};
use crate::handler_tables::rows::{condition_text, row_selected};
use crate::sorter::arrange::{grid_of, keys_of, law_sort_keeps_ordered_rows, sort_by_keys};
use crate::sorter::sort::SortMethod;
use crate::text::splitting::{join_with, lines, lines_of, split, split_on};
use crate::text::numbers::{decimal, decimal_of};
use crate::text::{append, char_views, chars_of, chars_of_all, grid_views, slice, string_of, views};
use vstd::prelude::*;

verus! {

/// The index of the last `c` in `s`.
pub open spec fn last_index(s: Seq<char>, c: char) -> Option<int>
    decreases s.len(),
{
    if s.len() == 0 {
        None
    } else if s.last() == c {
        Some(s.len() - 1)
    } else {
        last_index(s.drop_last(), c)
    }
}

/// The directory of a path: the path up to its last `/`, or `.` if it has
/// none behind its first character.
pub open spec fn directory_of(path: Seq<char>) -> Seq<char> {
    match last_index(path, '/') {
        Some(at) => if at > 0 {
            path.subrange(0, at)
        } else {
            "."@
        },
        None => "."@,
    }
}

/// The name of the table that a path leads to: its last segment, up to the
/// first full stop in it.
pub open spec fn table_name_of(path: Seq<char>) -> Seq<char> {
    split(split(path, '/').last(), '.')[0]
}

/// A table of comma-separated lines, the first of which names the columns.
pub struct Table {
    file_name: String,
    content: String,
}

impl Table {
    /// The path of the table's file.
    pub closed spec fn path(&self) -> Seq<char> {
        self.file_name@
    }

    /// The text of the table's file.
    pub closed spec fn text(&self) -> Seq<char> {
        self.content@
    }

    /// The table of the file at `path_table`, which holds the text
    /// `content`.
    pub fn new(path_table: String, content: String) -> (table: Table)
        ensures
            table.path() == path_table@,
            table.text() == content@,
    {
        Table { file_name: path_table, content }
    }

    /// A table that is held in memory, with the given path and text.
    pub fn mock(file_name: String, data: &str) -> (table: Table)
        ensures
            table.path() == file_name@,
            table.text() == data@,
    {
        Table { file_name, content: data.to_owned() }
    }

    /// The path of the table's file.
    pub fn get_file_directory(&self) -> (path: String)
        ensures
            path@ == self.path(),
    {
        self.file_name.clone()
    }

    /// The name of the table: the last segment of its path, up to the first
    /// full stop in it.
    pub fn get_file_name(&self) -> (r: Result<String, Tperrors>)
        ensures
            r is Ok,
            r->Ok_0@ == table_name_of(self.path()),
    {
        let path = chars_of(self.file_name.as_str());
        let segments = split_on(&path, '/');
        assert(char_views(segments@).last() == segments[segments.len() - 1]@);
        let parts = split_on(&segments[segments.len() - 1], '.');
        assert(char_views(parts@)[0] == parts[0]@);
        Ok(string_of(&parts[0]))
    }

    /// The directory of the table's file: its path up to the last `/`, or `.`
    /// if the path has none behind its first character.
    pub fn get_directory_where_file_is(&self) -> (directory: String)
        ensures
            directory@ == directory_of(self.path()),
    {
        let path = chars_of(self.file_name.as_str());
        let mut at: usize = path.len();
        assert(path@.take(at as int) == path@);
        while at > 0 && path[at - 1] != '/'
            invariant
                at <= path.len(),
                last_index(path@, '/') == last_index(path@.take(at as int), '/'),
            decreases at,
        {
            assert(path@.take(at as int).drop_last() == path@.take(at - 1));
            at -= 1;
        }
        if at <= 1 {
            ".".to_owned()
        } else {
            assert(path@.take(at as int).last() == '/');
            string_of(&slice(&path, 0, at - 1))
        }
    }

    /// The path of the file that a rewritten table is first written to: in
    /// the directory of the table, with `stamp` in its name.
    pub fn generate_temporal_file_path(&self, stamp: u128) -> (path: String)
        ensures
            path@ == directory_of(self.path()) + "/temporal_file_"@ + decimal(stamp as nat)
                + ".csv"@,
    {
        let mut path = chars_of(self.get_directory_where_file_is().as_str());
        append(&mut path, &chars_of("/temporal_file_"));
        append(&mut path, &decimal_of(stamp));
        append(&mut path, &chars_of(".csv"));
        string_of(&path)
    }

    /// The lines of the table and the names of its columns.
    ///
    /// Fails with a column error exactly when the table has no line.
    pub fn get_column_from_file(&self) -> (r: Result<(Vec<Vec<char>>, Vec<Vec<char>>), Tperrors>)
        ensures
            match r {
                Ok((all, header)) => char_views(all@) == lines(self.text()) && all.len() >= 1
                    && header_of(self.text()) == Some(char_views(header@)),
                Err(e) => header_of(self.text()) is None && e.kind_of() == ErrorKind::Column,
            },
    {
        let all = lines_of(&chars_of(self.content.as_str()));
        assert(char_views(all@).len() == all.len());
        if all.len() == 0 {
            return Err(column("Error while trying to read the file: No columns found"));
        }
        assert(char_views(all@)[0] == all[0]@);
        let header = split_on(&all[0], ',');
        Ok((all, header))
    }

    /// Resolves a `SELECT`: the requested columns of the rows that meet the
    /// condition, sorted as asked, under a first row with the names of the
    /// requested columns.
    pub fn resolve_select(
        &self,
        columns: Vec<String>,
        opt_conditions_as_str: Option<&str>,
        vector_sorting: Option<Vec<SortMethod>>,
    ) -> (r: Result<Vec<Vec<String>>, Tperrors>)
        ensures
            match r {
                Ok(rows) => select(
                    self.text(),
                    views(columns@),
                    condition_text(opt_conditions_as_str),
                    sorting_of(vector_sorting),
                ) == Ok::<Seq<Seq<Seq<char>>>, ErrorKind>(grid_views(rows@)),
                Err(e) => select(
                    self.text(),
                    views(columns@),
                    condition_text(opt_conditions_as_str),
                    sorting_of(vector_sorting),
                ) == Err::<Seq<Seq<Seq<char>>>, ErrorKind>(e.kind_of()),
            },
    {
        let (all, header) = match self.get_column_from_file() {
            Ok(found) => found,
            Err(e) => {
                return Err(e);
            },
        };
        let names = chars_of_all(&columns);
        let wanted = match resolve_requested(&header, &names) {
            Some(wanted) => wanted,
            None => {
                return Err(column("Invalid column inside the query"));
            },
        };
        let rows = body_rows(&all);
        assert(grid_of(rows@) == body_of(self.text()));
        let kept = match choose_rows(&header, &rows, opt_conditions_as_str) {
            Ok(kept) => kept,
            Err(e) => {
                return Err(e);
            },
        };
        let sorted = match &vector_sorting {
            None => kept,
            Some(methods) => {
                let keys = match resolve_sort_keys(&header, methods) {
                    Some(keys) => keys,
                    None => {
                        return Err(column("Invalid column inside the query"));
                    },
                };
                if kept.len() < 2 {
                    proof {
                        law_sort_keeps_ordered_rows(grid_of(kept@), keys_of(keys@));
                    }
                    kept
                } else {
                    if !rows_reach_keys(&kept, &keys) {
                        return Err(generic("A row has no field at the column of a sort key"));
                    }
                    sort_by_keys(&kept, &keys)
                }
            },
        };
        if !rows_reach_columns(&sorted, &wanted) {
            return Err(generic("A row has no field at a requested column"));
        }
        let ghost shown = grid_of(sorted@);
        let mut result: Vec<Vec<String>> = Vec::new();
        result.push(project_row(&header, &wanted));
        let mut i: usize = 0;
        while i < sorted.len()
            invariant
                i <= sorted.len(),
                result.len() == i + 1,
                shown == grid_of(sorted@),
                forall|k: int|
                    0 <= k < sorted.len() ==> indices_fit(
                        wanted@,
                        (#[trigger] sorted[k]).len() as int,
                    ),
                views(result[0]@) == project(char_views(header@), indices_of(wanted@)),
                forall|k: int|
                    0 <= k < i ==> views((#[trigger] result[k + 1])@) == project(
                        shown[k],
                        indices_of(wanted@),
                    ),
            decreases sorted.len() - i,
        {
            assert(shown[i as int] == char_views(sorted[i as int]@));
            let ghost before = result@;
            result.push(project_row(&sorted[i], &wanted));
            i += 1;
            assert forall|k: int| 0 <= k < i implies views((#[trigger] result[k + 1])@) == project(
                shown[k],
                indices_of(wanted@),
            ) by {
                if k < i - 1 {
                    assert(result[k + 1] == before[k + 1]);
                }
            }
        }
        assert(grid_views(result@) =~= projected(
            char_views(header@),
            shown,
            indices_of(wanted@),
        )) by {
            assert forall|k: int| 0 <= k < result.len() implies grid_views(result@)[k]
                == projected(char_views(header@), shown, indices_of(wanted@))[k] by {
                if k > 0 {
                    assert(views(result[(k - 1) + 1]@) == project(
                        shown[k - 1],
                        indices_of(wanted@),
                    ));
                }
            }
        }
        Ok(result)
    }

    /// Resolves an `INSERT`: for each row of values the fields of the line to
    /// add, one for every column of the table.
    #[verifier::loop_isolation(false)]
    pub fn resolve_insert(&self, columns: Vec<String>, values: Vec<Vec<String>>) -> (r: Result<
        Vec<Vec<String>>,
        Tperrors,
    >)
        ensures
            match r {
                Ok(rows) => insert(self.text(), views(columns@), grid_views(values@)) == Ok::<
                    Seq<Seq<Seq<char>>>,
                    ErrorKind,
                >(grid_views(rows@)),
                Err(e) => insert(self.text(), views(columns@), grid_views(values@)) == Err::<
                    Seq<Seq<Seq<char>>>,
                    ErrorKind,
                >(e.kind_of()),
            },
    {
        let (_, header) = match self.get_column_from_file() {
            Ok(found) => found,
            Err(e) => {
                return Err(e);
            },
        };
        let names = chars_of_all(&columns);
        let (from, width) = sources(&header, &names);
        assert(views(columns@).len() == columns.len());
        if columns.len() != width {
            return Err(column("Invalid column inside the query"));
        }
        let ghost head = char_views(header@);
        let ghost given = views(columns@);
        let ghost tuples = grid_views(values@);
        let mut rows: Vec<Vec<String>> = Vec::new();
        let mut i: usize = 0;
        assert(grid_views(rows@) =~= Seq::empty());
        while i < values.len()
            invariant
                i <= values.len(),
                inserted_lines(head, given, tuples.take(i as int)) == Some(grid_views(rows@)),
            decreases values.len() - i,
        {
            assert(tuples.take(i + 1).drop_last() == tuples.take(i as int));
            assert(tuples.take(i + 1).last() == views(values[i as int]@));
            let ghost tuple = views(values[i as int]@);
            match insert_fields(&from, &values[i]) {
                None => {
                    proof {
                        let h = choose|h: int|
                            0 <= h < from.len() && (#[trigger] from[h]) is Some && from[h]->0
                                >= values[i as int].len();
                        assert(source(head, given, h) == Some(from[h]->0 as int));
                        assert(!long_enough(head, given, tuple));
                        assert(tuples[i as int] == tuple);
                        lemma_inserted_fails(head, given, tuples, i as int);
                    }
                    return Err(generic("Position not found inside the columns"));
                },
                Some(fields) => {
                    proof {
                        assert forall|h: int|
                            0 <= h < head.len() && (#[trigger] source(head, given, h))
                                is Some implies source(head, given, h)->0 < tuple.len() by {
                            assert(from[h] is Some ==> fields[h]@ == values[i as int][from[h]->0
                                as int]@);
                        }
                        assert(views(fields@) =~= inserted_fields(head, given, tuple)) by {
                            assert forall|h: int| 0 <= h < fields.len() implies views(fields@)[h]
                                == inserted_fields(head, given, tuple)[h] by {
                                assert(from[h] is None ==> fields[h]@ == Seq::<char>::empty());
                            }
                        }
                    }
                    let ghost before = grid_views(rows@);
                    rows.push(fields);
                    assert(grid_views(rows@) =~= before.push(inserted_fields(head, given, tuple)));
                },
            }
            i += 1;
        }
        assert(tuples.take(values.len() as int) == tuples);
        Ok(rows)
    }

    /// Resolves an `UPDATE`: the lines of the table after the statement.
    #[verifier::loop_isolation(false)]
    pub fn resolve_update(
        &self,
        columns: Vec<String>,
        values: Vec<String>,
        opt_conditions: Option<&str>,
    ) -> (r: Result<Vec<String>, Tperrors>)
        ensures
            match r {
                Ok(rows) => update(
                    self.text(),
                    views(columns@),
                    views(values@),
                    condition_text(opt_conditions),
                ) == Ok::<Seq<Seq<char>>, ErrorKind>(views(rows@)),
                Err(e) => update(
                    self.text(),
                    views(columns@),
                    views(values@),
                    condition_text(opt_conditions),
                ) == Err::<Seq<Seq<char>>, ErrorKind>(e.kind_of()),
            },
    {
        let (all, header) = match self.get_column_from_file() {
            Ok(found) => found,
            Err(e) => {
                return Err(e);
            },
        };
        assert(views(columns@).len() == columns.len());
        assert(views(values@).len() == values.len());
        if values.len() < columns.len() {
            return Err(generic("Position not found inside the columns"));
        }
        let names = chars_of_all(&columns);
        let texts = chars_of_all(&values);
        assert(char_views(names@).len() == names.len());
        assert(char_views(texts@).len() == texts.len());
        let changes = new_values(&header, &names, &texts);
        let ghost head = char_views(header@);
        let ghost given = views(columns@);
        let ghost set = views(values@);
        let ghost condition = condition_text(opt_conditions);
        let ghost data = data_lines(self.text());
        let comma = chars_of(",");
        proof {
            reveal_strlit(",");
            assert(comma@ =~= seq![',']);
        }
        let mut rows: Vec<String> = Vec::new();
        rows.push(string_of(&all[0]));
        let mut i: usize = 1;
        assert(char_views(all@)[0] == all[0]@);
        assert(data.take(0) =~= Seq::empty());
        assert(views(rows@).subrange(1, 1) =~= Seq::empty());
        while i < all.len()
            invariant
                1 <= i <= all.len(),
                rows.len() == i,
                rows[0]@ == lines(self.text())[0],
                updated_lines(head, given, set, condition, data.take(i - 1)) == Ok::<
                    Seq<Seq<char>>,
                    ErrorKind,
                >(views(rows@).subrange(1, i as int)),
            decreases all.len() - i,
        {
            let ghost shown = views(rows@).subrange(1, i as int);
            assert(data.take(i as int).drop_last() == data.take(i - 1));
            assert(data.take(i as int).last() == all[i as int]@) by {
                assert(char_views(all@)[i as int] == all[i as int]@);
            }
            let fields = split_on(&all[i], ',');
            assert(char_views(fields@).len() == fields.len());
            let line = match row_selected(&header, &fields, opt_conditions) {
                Err(e) => {
                    proof {
                        assert(data[i - 1] == all[i as int]@);
                        lemma_updated_fails(head, given, set, condition, data, i - 1);
                    }
                    return Err(e);
                },
                Ok(false) => string_of(&all[i]),
                Ok(true) => {
                    let reached = reaches_changes(&changes, &fields);
                    proof {
                        assert forall|h: int| 0 <= h < head.len() implies (is_set(head, given, h)
                            <==> (#[trigger] changes[h]) is Some) by {
                            assert(head[h] == header[h]@);
                        }
                        if reached {
                            assert forall|h: int|
                                0 <= h < head.len() && #[trigger] is_set(
                                    head,
                                    given,
                                    h,
                                ) implies h < fields.len() by {
                                assert(changes[h] is Some);
                            }
                        } else {
                            let h = choose|h: int|
                                0 <= h < changes.len() && (#[trigger] changes[h]) is Some && h
                                    >= fields.len();
                            assert(is_set(head, given, h));
                        }
                        assert(reached == reaches(head, given, fields.len() as int));
                    }
                    if !reached {
                        proof {
                            assert(data[i - 1] == all[i as int]@);
                            lemma_updated_fails(head, given, set, condition, data, i - 1);
                        }
                        return Err(generic("A row has no field at a column that is set"));
                    }
                    let changed = apply_changes(&changes, &fields);
                    assert(char_views(changed@) =~= updated(head, given, set, char_views(fields@)))
                        by {
                        assert forall|h: int| 0 <= h < changed.len() implies char_views(
                            changed@,
                        )[h] == updated(head, given, set, char_views(fields@))[h] by {
                            assert(changed[h]@ == if h < changes.len() && changes[h] is Some {
                                changes[h]->0@
                            } else {
                                fields[h]@
                            });
                            assert(char_views(fields@)[h] == fields[h]@);
                        }
                    }
                    string_of(&join_with(&changed, &comma))
                },
            };
            assert(updated_line(head, given, set, condition, all[i as int]@) == Ok::<
                Seq<char>,
                ErrorKind,
            >(line@));
            rows.push(line);
            i += 1;
            assert(views(rows@).subrange(1, i as int) =~= shown.push(line@));
        }
        assert(data.take(all.len() - 1) == data);
        assert(views(rows@) =~= seq![lines(self.text())[0]] + views(rows@).subrange(
            1,
            all.len() as int,
        ));
        Ok(rows)
    }

    /// Resolves an `UPDATE` on a table that is held in memory.
    pub fn resolve_update_mock(
        &self,
        columns: Vec<String>,
        values: Vec<String>,
        opt_conditions: Option<&str>,
    ) -> (r: Result<Vec<String>, Tperrors>)
        ensures
            match r {
                Ok(rows) => update(
                    self.text(),
                    views(columns@),
                    views(values@),
                    condition_text(opt_conditions),
                ) == Ok::<Seq<Seq<char>>, ErrorKind>(views(rows@)),
                Err(e) => update(
                    self.text(),
                    views(columns@),
                    views(values@),
                    condition_text(opt_conditions),
                ) == Err::<Seq<Seq<char>>, ErrorKind>(e.kind_of()),
            },
    {
        self.resolve_update(columns, values, opt_conditions)
    }

    /// Resolves a `DELETE`: the lines of the table after the statement.
    #[verifier::loop_isolation(false)]
    pub fn resolve_delete(&self, conditions: Option<&str>) -> (r: Result<Vec<String>, Tperrors>)
        ensures
            match r {
                Ok(rows) => delete(self.text(), condition_text(conditions)) == Ok::<
                    Seq<Seq<char>>,
                    ErrorKind,
                >(views(rows@)),
                Err(e) => delete(self.text(), condition_text(conditions)) == Err::<
                    Seq<Seq<char>>,
                    ErrorKind,
                >(e.kind_of()),
            },
    {
        let (all, header) = match self.get_column_from_file() {
            Ok(found) => found,
            Err(e) => {
                return Err(e);
            },
        };
        let ghost head = char_views(header@);
        let ghost condition = condition_text(conditions);
        let ghost data = data_lines(self.text());
        let mut rows: Vec<String> = Vec::new();
        rows.push(string_of(&all[0]));
        let mut i: usize = 1;
        assert(char_views(all@)[0] == all[0]@);
        assert(data.take(0) =~= Seq::empty());
        assert(views(rows@).subrange(1, 1) =~= Seq::empty());
        while i < all.len()
            invariant
                1 <= i <= all.len(),
                rows.len() >= 1,
                rows[0]@ == lines(self.text())[0],
                remaining(head, condition, data.take(i - 1)) == Ok::<Seq<Seq<char>>, ErrorKind>(
                    views(rows@).subrange(1, rows.len() as int),
                ),
            decreases all.len() - i,
        {
            let ghost shown = views(rows@).subrange(1, rows.len() as int);
            assert(data.take(i as int).drop_last() == data.take(i - 1));
            assert(data.take(i as int).last() == all[i as int]@) by {
                assert(char_views(all@)[i as int] == all[i as int]@);
            }
            let fields = split_on(&all[i], ',');
            match row_selected(&header, &fields, conditions) {
                Err(e) => {
                    proof {
                        assert(data[i - 1] == all[i as int]@);
                        lemma_remaining_fails(head, condition, data, i - 1);
                    }
                    return Err(e);
                },
                Ok(true) => {},
                Ok(false) => {
                    let line = string_of(&all[i]);
                    rows.push(line);
                    assert(views(rows@).subrange(1, rows.len() as int) =~= shown.push(
                        all[i as int]@,
                    ));
                },
            }
            i += 1;
        }
        assert(data.take(all.len() - 1) == data);
        assert(views(rows@) =~= seq![lines(self.text())[0]] + views(rows@).subrange(
            1,
            rows.len() as int,
        ));
        Ok(rows)
    }

    /// Resolves a `DELETE` on a table that is held in memory.
    pub fn resolve_delete_mock(&self, conditions: Option<&str>) -> (r: Result<
        Vec<String>,
        Tperrors,
    >)
        ensures
            match r {
                Ok(rows) => delete(self.text(), condition_text(conditions)) == Ok::<
                    Seq<Seq<char>>,
                    ErrorKind,
                >(views(rows@)),
                Err(e) => delete(self.text(), condition_text(conditions)) == Err::<
                    Seq<Seq<char>>,
                    ErrorKind,
                >(e.kind_of()),
            },
    {
        self.resolve_delete(conditions)
    }
}

} // verus!
