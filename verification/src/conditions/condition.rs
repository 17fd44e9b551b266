//! Deciding whether a row meets a condition.
//!
//! A condition is a list of comparisons joined by `AND` and `OR`, each of
//! which may follow a `NOT`, with round brackets around groups. The joining
//! words apply from left to right in the order in which they are met: none of
//! them binds more tightly than the other.

use crate::conditions::comparison::{
    column_vs_column, column_vs_literal, compare_ints, operator_of, read_operator,
    resolve_column_evaluation, resolve_constant_evaluation, resolve_evaluation, Operator,
};
use crate::conditions::operand::{fixed_operand, lemma_read_operand_bounds, read_operand};
use crate::conditions::tokens::{
    balanced, count_word, preprocess_conditions, resplit, split_conditions,
};
use crate::conditions::value::{Cell, Value};
use crate::errors::tperrors::{column, syntax, ErrorKind, Tperrors};
use crate::text::numbers::{is_int, parse_i64, parse_int};
use crate::text::splitting::bracket_words;
use crate::text::{char_views, chars_of, is_word};
use vstd::prelude::*;

verus! {

/// The values of one row by column name, in the order of the columns.
pub struct Condition {
    data: Vec<(String, Value)>,
}

/// The word that joins a term to what stands before it.
#[derive(Clone, Copy, Debug, PartialEq, Eq, Structural)]
pub enum Joiner {
    /// No `AND` or `OR` was met yet: the term replaces what stands before it.
    First,
    And,
    Or,
}

/// Where an evaluation stands after a term or a group: what it found, and the
/// index of the next token to read.
pub struct Step {
    pub result: Result<bool, ErrorKind>,
    pub next: int,
}

/// The row that a list of named values stands for.
pub open spec fn binding(data: Seq<(String, Value)>) -> Seq<(Seq<char>, Cell)> {
    Seq::new(data.len(), |i: int| (data[i].0@, data[i].1@))
}

/// The index of the first column of `row` at or after `k` with the name
/// `name`.
pub open spec fn position_from(row: Seq<(Seq<char>, Cell)>, name: Seq<char>, k: int) -> Option<
    int,
>
    decreases row.len() - k,
{
    if k < 0 || k >= row.len() {
        None
    } else if row[k].0 == name {
        Some(k)
    } else {
        position_from(row, name, k + 1)
    }
}

/// The value of the first column of `row` with the name `name`.
pub open spec fn lookup(row: Seq<(Seq<char>, Cell)>, name: Seq<char>) -> Option<Cell> {
    match position_from(row, name, 0) {
        Some(k) => Some(row[k].1),
        None => None,
    }
}

/// `value`, inverted if a `NOT` stands before it.
pub open spec fn apply(negate: bool, value: bool) -> bool {
    if negate {
        !value
    } else {
        value
    }
}

/// What stands before a term, joined with the term.
pub open spec fn combine(left: bool, right: bool, joiner: Joiner) -> bool {
    match joiner {
        Joiner::And => left && right,
        Joiner::Or => left || right,
        Joiner::First => right,
    }
}

/// Whether `t` is a word that cannot end a condition.
pub open spec fn is_dangling(t: Seq<char>) -> bool {
    t == "AND"@ || t == "OR"@ || t == "NOT"@
}

/// A failed step.
pub open spec fn fail(kind: ErrorKind, at: int) -> Step {
    Step { result: Err(kind), next: at }
}

/// Whether a comparison is the degenerate term that a `NOT` in the place of
/// a column makes: the left operand is the text `NOT` and names no column.
pub open spec fn degenerate(row: Seq<(Seq<char>, Cell)>, left: Seq<char>) -> bool {
    left == "NOT"@ && lookup(row, left) is None
}

/// What the comparison of `left` and `right` under `op` gives for `row`.
///
/// Two integers compare as constants. Otherwise `left` must name a column,
/// which is compared with the column that `right` names or, if it names none,
/// with `right` as a literal.
pub open spec fn resolve(
    row: Seq<(Seq<char>, Cell)>,
    left: Seq<char>,
    op: Operator,
    right: Seq<char>,
) -> Result<bool, ErrorKind> {
    if is_int(left) && is_int(right) {
        Ok(compare_ints(parse_int(left)->0, op, parse_int(right)->0))
    } else {
        match lookup(row, left) {
            None => Err(ErrorKind::Column),
            Some(value) => match lookup(row, right) {
                Some(other) => Ok(column_vs_column(value, op, other)),
                None => Ok(column_vs_literal(value, op, right)),
            },
        }
    }
}

/// The comparison that starts at token `i`.
///
/// It is a syntax error if the last token of all is `AND`, `OR` or `NOT`, if
/// an operand opens a quote that is not closed, or if the tokens end before
/// the operator and the right operand. The degenerate term gives the opposite
/// of `negate` and ends after its first token.
pub open spec fn eval_comparison(
    tokens: Seq<Seq<char>>,
    row: Seq<(Seq<char>, Cell)>,
    i: int,
    negate: bool,
) -> Step {
    if is_dangling(tokens.last()) {
        fail(ErrorKind::Syntax, i)
    } else {
        match read_operand(tokens, i) {
            None => fail(ErrorKind::Syntax, i),
            Some((left, at)) => if at + 1 >= tokens.len() {
                fail(ErrorKind::Syntax, i)
            } else {
                match read_operand(tokens, at + 1) {
                    None => fail(ErrorKind::Syntax, i),
                    Some((right, next)) => match resolve(
                        row,
                        left,
                        operator_of(tokens[at]),
                        right,
                    ) {
                        Ok(value) => Step { result: Ok(apply(negate, value)), next },
                        Err(kind) => if degenerate(row, left) {
                            Step { result: Ok(!negate), next: i + 1 }
                        } else {
                            fail(kind, i)
                        },
                    },
                }
            },
        }
    }
}

/// The evaluation of the tokens from index `i` on, up to the bracket that
/// closes the group or to the end.
///
/// `acc` is what the group gave so far, `joiner` the last `AND` or `OR` met in
/// it, and `negate` whether a `NOT` waits for the next term.
pub open spec fn eval_expr(
    tokens: Seq<Seq<char>>,
    row: Seq<(Seq<char>, Cell)>,
    i: int,
    acc: bool,
    joiner: Joiner,
    negate: bool,
) -> Step
    decreases tokens.len() - i,
{
    if i < 0 || i >= tokens.len() {
        Step { result: Ok(acc), next: i }
    } else if tokens[i] == "NOT"@ {
        eval_expr(tokens, row, i + 1, acc, joiner, true)
    } else if tokens[i] == "("@ {
        let group = eval_expr(tokens, row, i + 1, true, Joiner::First, false);
        match group.result {
            Err(_) => group,
            Ok(value) => if i < group.next <= tokens.len() {
                eval_expr(
                    tokens,
                    row,
                    group.next,
                    combine(acc, apply(negate, value), joiner),
                    joiner,
                    false,
                )
            } else {
                group
            },
        }
    } else if tokens[i] == ")"@ {
        Step { result: Ok(acc), next: i + 1 }
    } else if tokens[i] == "AND"@ {
        eval_expr(tokens, row, i + 1, acc, Joiner::And, negate)
    } else if tokens[i] == "OR"@ {
        eval_expr(tokens, row, i + 1, acc, Joiner::Or, negate)
    } else {
        let term = eval_comparison(tokens, row, i, negate);
        match term.result {
            Err(_) => term,
            Ok(value) => if i < term.next <= tokens.len() {
                eval_expr(tokens, row, term.next, combine(acc, value, joiner), joiner, false)
            } else {
                term
            },
        }
    }
}

/// What a list of tokens gives for `row`.
pub open spec fn eval_tokens(tokens: Seq<Seq<char>>, row: Seq<(Seq<char>, Cell)>) -> Result<
    bool,
    ErrorKind,
> {
    eval_expr(tokens, row, 0, true, Joiner::First, false).result
}

/// Whether `row` meets the condition `text`, or why that cannot be said.
///
/// Brackets that do not balance are a syntax error, whatever else the
/// condition holds; so is a word with the spelling `=>` or `=<`.
pub open spec fn meets(text: Seq<char>, row: Seq<(Seq<char>, Cell)>) -> Result<
    bool,
    ErrorKind,
> {
    if !balanced(bracket_words(text)) {
        Err(ErrorKind::Syntax)
    } else {
        match resplit(bracket_words(text)) {
            None => Err(ErrorKind::Syntax),
            Some(tokens) => eval_tokens(tokens, row),
        }
    }
}

/// A comparison that succeeds ends after the token it starts at, and within
/// the tokens.
pub proof fn lemma_comparison_advances(
    tokens: Seq<Seq<char>>,
    row: Seq<(Seq<char>, Cell)>,
    i: int,
    negate: bool,
)
    requires
        0 <= i < tokens.len(),
    ensures
        eval_comparison(tokens, row, i, negate).result is Ok ==> i < eval_comparison(
            tokens,
            row,
            i,
            negate,
        ).next <= tokens.len(),
{
    lemma_read_operand_bounds(tokens, i);
    match read_operand(tokens, i) {
        None => {},
        Some((left, at)) => {
            if at + 1 < tokens.len() {
                lemma_read_operand_bounds(tokens, at + 1);
            }
        },
    }
}

/// An evaluation never moves backwards and never leaves the tokens.
pub proof fn lemma_expr_advances(
    tokens: Seq<Seq<char>>,
    row: Seq<(Seq<char>, Cell)>,
    i: int,
    acc: bool,
    joiner: Joiner,
    negate: bool,
)
    requires
        0 <= i <= tokens.len(),
    ensures
        i <= eval_expr(tokens, row, i, acc, joiner, negate).next <= tokens.len(),
    decreases tokens.len() - i,
{
    if i >= tokens.len() {
    } else if tokens[i] == "NOT"@ {
        lemma_expr_advances(tokens, row, i + 1, acc, joiner, true);
    } else if tokens[i] == "("@ {
        let group = eval_expr(tokens, row, i + 1, true, Joiner::First, false);
        lemma_expr_advances(tokens, row, i + 1, true, Joiner::First, false);
        match group.result {
            Err(_) => {},
            Ok(value) => {
                lemma_expr_advances(
                    tokens,
                    row,
                    group.next,
                    combine(acc, apply(negate, value), joiner),
                    joiner,
                    false,
                );
            },
        }
    } else if tokens[i] == ")"@ {
    } else if tokens[i] == "AND"@ {
        lemma_expr_advances(tokens, row, i + 1, acc, Joiner::And, negate);
    } else if tokens[i] == "OR"@ {
        lemma_expr_advances(tokens, row, i + 1, acc, Joiner::Or, negate);
    } else {
        let term = eval_comparison(tokens, row, i, negate);
        lemma_comparison_advances(tokens, row, i, negate);
        match term.result {
            Err(_) => {},
            Ok(value) => {
                lemma_expr_advances(
                    tokens,
                    row,
                    term.next,
                    combine(acc, value, joiner),
                    joiner,
                    false,
                );
            },
        }
    }
}

impl Condition {
    /// The row that this condition is asked about.
    pub closed spec fn row(&self) -> Seq<(Seq<char>, Cell)> {
        binding(self.data@)
    }

    /// A row from its named values.
    pub fn new(data: Vec<(String, Value)>) -> (c: Condition)
        ensures
            c.row() == binding(data@),
    {
        Condition { data }
    }

    /// Whether the row meets the condition `conditions`.
    pub fn matches_condition(&self, conditions: &str) -> (r: Result<bool, Tperrors>)
        ensures
            match r {
                Ok(b) => meets(conditions@, self.row()) == Ok::<bool, ErrorKind>(b),
                Err(e) => meets(conditions@, self.row()) == Err::<bool, ErrorKind>(e.kind_of()),
            },
    {
        let text = chars_of(conditions);
        let words = preprocess_conditions(&text);
        if count_word(&words, "(") != count_word(&words, ")") {
            return Err(syntax("near ';'"));
        }
        match split_conditions(&words) {
            Err(e) => Err(e),
            Ok(tokens) => {
                let mut i: usize = 0;
                self.evaluate_expression(&tokens, &mut i)
            },
        }
    }

    /// Evaluates the tokens from `*i` on, up to the bracket that closes the
    /// group or to the end, and leaves `*i` at the next token to read.
    pub fn evaluate_expression(&self, tokens: &Vec<Vec<char>>, i: &mut usize) -> (r: Result<
        bool,
        Tperrors,
    >)
        requires
            *old(i) <= tokens.len(),
        ensures
            *old(i) <= *final(i) <= tokens.len(),
            match r {
                Ok(b) => eval_expr(
                    char_views(tokens@),
                    self.row(),
                    *old(i) as int,
                    true,
                    Joiner::First,
                    false,
                ) == (Step { result: Ok(b), next: *final(i) as int }),
                Err(e) => eval_expr(
                    char_views(tokens@),
                    self.row(),
                    *old(i) as int,
                    true,
                    Joiner::First,
                    false,
                ).result == Err::<bool, ErrorKind>(e.kind_of()),
            },
        decreases tokens.len() - *old(i),
    {
        let ghost all = char_views(tokens@);
        let ghost row = self.row();
        let ghost start = *i as int;
        let mut result = true;
        let mut joiner = Joiner::First;
        let mut negate_next = false;
        while *i < tokens.len()
            invariant
                start <= *i <= tokens.len(),
                *old(i) == start,
                all == char_views(tokens@),
                row == self.row(),
                eval_expr(all, row, start, true, Joiner::First, false) == eval_expr(
                    all,
                    row,
                    *i as int,
                    result,
                    joiner,
                    negate_next,
                ),
            decreases tokens.len() - *i,
        {
            let at: usize = *i;
            let token = &tokens[at];
            assert(all[at as int] == token@);
            if is_word(token, "NOT") {
                negate_next = true;
                *i = at + 1;
            } else if is_word(token, "(") {
                *i = at + 1;
                proof {
                    lemma_expr_advances(all, row, at + 1, true, Joiner::First, false);
                }
                match self.evaluate_expression(tokens, i) {
                    Err(e) => {
                        return Err(e);
                    },
                    Ok(group) => {
                        let value = if negate_next {
                            !group
                        } else {
                            group
                        };
                        result = Self::combine_with_operator(result, value, joiner);
                        negate_next = false;
                    },
                }
            } else if is_word(token, ")") {
                *i = at + 1;
                return Ok(result);
            } else if is_word(token, "AND") {
                joiner = Joiner::And;
                *i = at + 1;
            } else if is_word(token, "OR") {
                joiner = Joiner::Or;
                *i = at + 1;
            } else {
                proof {
                    lemma_comparison_advances(all, row, at as int, negate_next);
                }
                match self.evaluate_condition(tokens, i, negate_next) {
                    Err(e) => {
                        return Err(e);
                    },
                    Ok(value) => {
                        result = Self::combine_with_operator(result, value, joiner);
                        negate_next = false;
                    },
                }
            }
        }
        Ok(result)
    }

    /// Joins what stands before a term with the term.
    pub fn combine_with_operator(left: bool, right: bool, joiner: Joiner) -> (r: bool)
        ensures
            r == combine(left, right, joiner),
    {
        match joiner {
            Joiner::And => left && right,
            Joiner::Or => left || right,
            Joiner::First => right,
        }
    }

    /// The index of the first column with the name `name`.
    fn find_column(&self, name: &Vec<char>) -> (r: Option<usize>)
        ensures
            match r {
                Some(k) => position_from(self.row(), name@, 0) == Some(k as int) && k
                    < self.data.len(),
                None => position_from(self.row(), name@, 0) is None,
            },
    {
        let mut k: usize = 0;
        while k < self.data.len()
            invariant
                k <= self.data.len(),
                position_from(self.row(), name@, 0) == position_from(self.row(), name@, k as int),
            decreases self.data.len() - k,
        {
            assert(self.row()[k as int].0 == self.data[k as int].0@);
            if is_word(name, self.data[k].0.as_str()) {
                return Some(k);
            }
            k += 1;
        }
        None
    }

    /// Reads the left operand of a comparison, which starts at token `*i`,
    /// and leaves `*i` at the last token of the operand.
    ///
    /// Fails with a syntax error exactly when the operand opens a quote that is
    /// not closed; `*i` is then left as it was.
    pub fn return_fixed_column(tokens: &Vec<Vec<char>>, i: &mut usize) -> (r: Result<
        Vec<char>,
        Tperrors,
    >)
        requires
            *old(i) < tokens.len(),
        ensures
            match r {
                Ok(text) => read_operand(char_views(tokens@), *old(i) as int) == Some(
                    (text@, *final(i) + 1),
                ) && *old(i) <= *final(i) < tokens.len(),
                Err(e) => read_operand(char_views(tokens@), *old(i) as int) is None && *final(i)
                    == *old(i) && e.kind_of() == ErrorKind::Syntax,
            },
    {
        match fixed_operand(tokens, i) {
            Some(text) => {
                *i = *i - 1;
                Ok(text)
            },
            None => Err(syntax("Missing scaped column")),
        }
    }

    /// Reads the right operand of a comparison, which starts at token `*i`,
    /// and leaves `*i` at the last token of the operand.
    ///
    /// Fails with a syntax error exactly when the operand opens a quote that is
    /// not closed; `*i` is then left as it was.
    pub fn return_fixed_value(tokens: &Vec<Vec<char>>, i: &mut usize) -> (r: Result<
        Vec<char>,
        Tperrors,
    >)
        requires
            *old(i) < tokens.len(),
        ensures
            match r {
                Ok(text) => read_operand(char_views(tokens@), *old(i) as int) == Some(
                    (text@, *final(i) + 1),
                ) && *old(i) <= *final(i) < tokens.len(),
                Err(e) => read_operand(char_views(tokens@), *old(i) as int) is None && *final(i)
                    == *old(i) && e.kind_of() == ErrorKind::Syntax,
            },
    {
        match fixed_operand(tokens, i) {
            Some(text) => {
                *i = *i - 1;
                Ok(text)
            },
            None => Err(syntax("Missing scaped value")),
        }
    }

    /// Evaluates the comparison that starts at token `*i` and leaves `*i` at
    /// the token after it.
    pub fn evaluate_condition(&self, tokens: &Vec<Vec<char>>, i: &mut usize, negate: bool) -> (r:
        Result<bool, Tperrors>)
        requires
            *old(i) < tokens.len(),
        ensures
            *old(i) <= *final(i) <= tokens.len(),
            match r {
                Ok(b) => eval_comparison(char_views(tokens@), self.row(), *old(i) as int, negate)
                    == (Step { result: Ok(b), next: *final(i) as int }) && *old(i) < *final(i)
                    <= tokens.len(),
                Err(e) => eval_comparison(
                    char_views(tokens@),
                    self.row(),
                    *old(i) as int,
                    negate,
                ).result == Err::<bool, ErrorKind>(e.kind_of()),
            },
    {
        let start: usize = *i;
        let ghost all = char_views(tokens@);
        let last = &tokens[tokens.len() - 1];
        assert(all.last() == last@);
        if is_word(last, "AND") || is_word(last, "OR") || is_word(last, "NOT") {
            return Err(syntax("Condition incomplete"));
        }
        let left = match Self::return_fixed_column(tokens, i) {
            Ok(text) => text,
            Err(e) => {
                return Err(e);
            },
        };
        // from the last token of the left operand to the operator
        *i = *i + 1;
        let at: usize = *i;
        if tokens.len() - at <= 1 {
            return Err(syntax("Condition incomplete"));
        }
        assert(all[at as int] == tokens[at as int]@);
        let op = read_operator(&tokens[at]);
        // from the operator to the right operand
        *i = at + 1;
        let right = match Self::return_fixed_value(tokens, i) {
            Ok(text) => text,
            Err(e) => {
                return Err(e);
            },
        };
        // from the last token of the right operand to what follows
        *i = *i + 1;
        match (parse_i64(&left), parse_i64(&right)) {
            (Some(a), Some(b)) => {
                let value = resolve_constant_evaluation(a, op, b);
                return Ok(
                    if negate {
                        !value
                    } else {
                        value
                    },
                );
            },
            _ => {},
        }
        match self.find_column(&left) {
            Some(k) => {
                assert(self.row()[k as int].1 == self.data[k as int].1@);
                let value = match self.find_column(&right) {
                    Some(j) => {
                        assert(self.row()[j as int].1 == self.data[j as int].1@);
                        resolve_column_evaluation(&self.data[k].1, op, &self.data[j].1)
                    },
                    None => resolve_evaluation(&self.data[k].1, op, &right),
                };
                Ok(
                    if negate {
                        !value
                    } else {
                        value
                    },
                )
            },
            None => {
                if is_word(&left, "NOT") {
                    *i = start + 1;
                    Ok(!negate)
                } else {
                    Err(column("Unknown column in the condition, maybe spaces are required?"))
                }
            },
        }
    }
}

} // verus!
