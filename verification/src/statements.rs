//! From a statement's text to what is to be done with the table: which kind
//! of statement it is, and the parts that its execution takes.

use crate::consults::delete::Delete;
use crate::consults::insert::Insert;
use crate::consults::select::Select;
use crate::consults::update::Update;
use crate::consults::validity::well_shaped;
use crate::errors::tperrors::{syntax, ErrorKind, Tperrors};
use crate::extractors::extractor::{
    condition_of, insert_parts, order_by_of, select_columns, sort_methods, update_parts,
    Extractor,
};
use crate::extractors::sqlcommand::SQLCommand;
use crate::handler_tables::query::sorting_of;
use crate::sorter::sort::SortMethod;
use crate::text::splitting::{split, split_on};
use crate::text::trimming::{trim, trimmed};
use crate::text::{char_views, chars_of, grid_views, is_word, views};
use vstd::prelude::*;

verus! {

/// Whether the program was given enough arguments: its own name, the folder
/// of the tables, and the statement.
pub fn valid_number_of_args(args: &usize) -> (r: bool)
    ensures
        r == (*args > 2),
{
    *args > 2
}

/// The kind of a statement: the kind that its first word names, provided that
/// the statement has the shape of that kind. The first word ends at the first
/// space of the statement without the white space around it.
pub open spec fn kind_of(consult: Seq<char>) -> Option<SQLCommand> {
    let word = split(trim(consult), ' ')[0];
    if word == "SELECT"@ {
        if well_shaped(consult, "SELECT"@, "FROM"@) {
            Some(SQLCommand::Select)
        } else {
            None
        }
    } else if word == "INSERT"@ {
        if well_shaped(consult, "INSERT INTO"@, "VALUES"@) {
            Some(SQLCommand::Insert)
        } else {
            None
        }
    } else if word == "UPDATE"@ {
        if well_shaped(consult, "UPDATE"@, "SET"@) {
            Some(SQLCommand::Update)
        } else {
            None
        }
    } else if word == "DELETE"@ {
        if well_shaped(consult, "DELETE"@, "FROM"@) {
            Some(SQLCommand::Delete)
        } else {
            None
        }
    } else {
        None
    }
}

/// The kind of a statement.
///
/// Fails with a syntax error exactly when the first word names no kind or
/// the statement does not have the shape of the kind.
pub fn command(consult: &str) -> (r: Result<SQLCommand, Tperrors>)
    ensures
        match r {
            Ok(kind) => kind_of(consult@) == Some(kind),
            Err(e) => kind_of(consult@) is None && e.kind_of() == ErrorKind::Syntax,
        },
{
    let pieces = split_on(&trimmed(&chars_of(consult)), ' ');
    assert(char_views(pieces@)[0] == pieces[0]@);
    let word = &pieces[0];
    if is_word(word, "SELECT") {
        if !Select::new().is_valid_query(consult) {
            return Err(syntax("Invalid select query (Missing either SELECT , FROM or ;)"));
        }
        Ok(SQLCommand::Select)
    } else if is_word(word, "INSERT") {
        if !Insert::new().is_valid_query(consult) {
            return Err(syntax("Invalid insert query (Missing either INSERT INTO, VALUES or ;)"));
        }
        Ok(SQLCommand::Insert)
    } else if is_word(word, "UPDATE") {
        if !Update::new().is_valid_query(consult) {
            return Err(syntax("Invalid update query (Missing either UPDATE, SET, WHERE or ;)"));
        }
        Ok(SQLCommand::Update)
    } else if is_word(word, "DELETE") {
        if !Delete::new().is_valid_query(consult) {
            return Err(syntax("Invalid delete query (Missing either DELETE, FROM, WHERE or ;)"));
        }
        Ok(SQLCommand::Delete)
    } else {
        Err(syntax("Invalid command"))
    }
}

/// What the execution of a `SELECT` takes.
pub struct SelectPlan {
    pub columns: Vec<String>,
    pub conditions: Option<String>,
    pub sorting: Option<Vec<SortMethod>>,
}

/// What the execution of an `UPDATE` takes.
pub struct UpdatePlan {
    pub columns: Vec<String>,
    pub values: Vec<String>,
    pub conditions: Option<String>,
}

/// The text of an optional owned condition.
pub open spec fn text_of(condition: Option<String>) -> Option<Seq<char>> {
    match condition {
        Some(c) => Some(c@),
        None => None,
    }
}

/// The parts of a `SELECT`: its columns, its condition and its sort keys.
/// `None` if the statement does not have the shape of a `SELECT`, its columns
/// cannot be read, or its condition is empty.
pub open spec fn select_plan(consult: Seq<char>) -> Option<
    (Seq<Seq<char>>, Option<Seq<char>>, Option<Seq<(Seq<char>, bool)>>),
> {
    if !well_shaped(consult, "SELECT"@, "FROM"@) {
        None
    } else {
        match select_columns(consult) {
            None => None,
            Some(columns) => if condition_of(consult) == Some(Seq::<char>::empty()) {
                None
            } else {
                Some(
                    (
                        columns,
                        condition_of(consult),
                        match order_by_of(consult) {
                            Some(clause) => Some(sort_methods(clause)),
                            None => None,
                        },
                    ),
                )
            },
        }
    }
}

/// The parts of an `INSERT`: its columns and its rows of values. `None` if
/// the statement does not have the shape of an `INSERT` or its parts cannot
/// be read.
pub open spec fn insert_plan(consult: Seq<char>) -> Option<
    (Seq<Seq<char>>, Seq<Seq<Seq<char>>>),
> {
    if !well_shaped(consult, "INSERT INTO"@, "VALUES"@) {
        None
    } else {
        insert_parts(consult)
    }
}

/// The parts of an `UPDATE`: its columns, their values and its condition.
/// `None` if the statement does not have the shape of an `UPDATE` or its
/// assignments cannot be read.
pub open spec fn update_plan(consult: Seq<char>) -> Option<
    (Seq<Seq<char>>, Seq<Seq<char>>, Option<Seq<char>>),
> {
    if !well_shaped(consult, "UPDATE"@, "SET"@) {
        None
    } else {
        match update_parts(consult) {
            None => None,
            Some((columns, values)) => Some((columns, values, condition_of(consult))),
        }
    }
}

/// The condition of a `DELETE`, which may have none. `None` if the statement
/// does not have the shape of a `DELETE`.
pub open spec fn delete_plan(consult: Seq<char>) -> Option<Option<Seq<char>>> {
    if !well_shaped(consult, "DELETE"@, "FROM"@) {
        None
    } else {
        Some(condition_of(consult))
    }
}

/// Reads the parts of a `SELECT`.
///
/// Fails with a syntax error exactly when `select_plan` gives nothing.
pub fn resolve_select(extractor: &Extractor, consult: &str, select: &Select) -> (r: Result<
    SelectPlan,
    Tperrors,
>)
    ensures
        match r {
            Ok(plan) => select_plan(consult@) == Some(
                (views(plan.columns@), text_of(plan.conditions), sorting_of(plan.sorting)),
            ),
            Err(e) => select_plan(consult@) is None && e.kind_of() == ErrorKind::Syntax,
        },
{
    if !select.is_valid_query(consult) {
        return Err(syntax("Invalid select query (Missing either SELECT , FROM or ;)"));
    }
    let columns = match extractor.extract_columns_for_select(consult) {
        Ok(columns) => columns,
        Err(e) => {
            return Err(e);
        },
    };
    let conditions = extractor.extract_as_str_conditions(consult);
    match &conditions {
        Some(c) => {
            if c.as_str().is_empty() {
                assert(c@ =~= Seq::<char>::empty());
                return Err(syntax("incomplete input"));
            }
        },
        None => {},
    }
    let sorting = match extractor.extract_orderby_as_str(consult) {
        Some(clause) => {
            let keys = extractor.parser_orderby_from_str_to_vec(clause.as_str());
            assert(sorting_of(Some(keys))->0 =~= sort_methods(clause@));
            Some(keys)
        },
        None => None,
    };
    Ok(SelectPlan { columns, conditions, sorting })
}

/// Reads the parts of an `INSERT`.
///
/// Fails with a syntax error exactly when `insert_plan` gives nothing.
pub fn resolve_insert(extractor: &Extractor, consult: &str, insert: &Insert) -> (r: Result<
    (Vec<String>, Vec<Vec<String>>),
    Tperrors,
>)
    ensures
        match r {
            Ok((columns, values)) => insert_plan(consult@) == Some(
                (views(columns@), grid_views(values@)),
            ),
            Err(e) => insert_plan(consult@) is None && e.kind_of() == ErrorKind::Syntax,
        },
{
    if !insert.is_valid_query(consult) {
        return Err(syntax("Invalid insert query (Missing either INSERT INTO, VALUES or ;)"));
    }
    extractor.extract_columns_and_values_for_insert(consult)
}

/// Reads the parts of an `UPDATE`.
///
/// Fails with a syntax error exactly when `update_plan` gives nothing.
pub fn resolve_update(extractor: &Extractor, consult: &str, update: &Update) -> (r: Result<
    UpdatePlan,
    Tperrors,
>)
    ensures
        match r {
            Ok(plan) => update_plan(consult@) == Some(
                (views(plan.columns@), views(plan.values@), text_of(plan.conditions)),
            ),
            Err(e) => update_plan(consult@) is None && e.kind_of() == ErrorKind::Syntax,
        },
{
    if !update.is_valid_query(consult) {
        return Err(syntax("Invalid update query (Missing either UPDATE, SET, WHERE or ;)"));
    }
    let (columns, values) = match extractor.extract_columns_and_values_for_update(consult) {
        Ok(parts) => parts,
        Err(e) => {
            return Err(e);
        },
    };
    let conditions = extractor.extract_as_str_conditions(consult);
    Ok(UpdatePlan { columns, values, conditions })
}

/// Reads the condition of a `DELETE`.
///
/// Fails with a syntax error exactly when the statement does not have the
/// shape of a `DELETE`.
pub fn resolve_delete(extractor: &Extractor, consult: &str, delete: &Delete) -> (r: Result<
    Option<String>,
    Tperrors,
>)
    ensures
        match r {
            Ok(conditions) => delete_plan(consult@) == Some(text_of(conditions)),
            Err(e) => delete_plan(consult@) is None && e.kind_of() == ErrorKind::Syntax,
        },
{
    if !delete.is_valid_query(consult) {
        return Err(syntax("Invalid delete query (Missing either DELETE, FROM, WHERE or ;)"));
    }
    Ok(extractor.extract_as_str_conditions(consult))
}

} // verus!
