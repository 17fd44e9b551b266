//! What holds of every condition.

use crate::conditions::comparison::{compare_ints, operator_of, Operator};
use crate::conditions::condition::{
    apply, combine, eval_comparison, eval_expr, eval_tokens, is_dangling, lemma_expr_advances,
    meets, resolve, Joiner, Step,
};
use crate::conditions::operand::{
    closing_token, first_quote, first_quote_from, is_quote, lemma_closing_token,
    lemma_read_operand_bounds, read_operand,
};
use crate::conditions::tokens::{
    balanced, count_of, misspelled, operator_cut, piece, resplit, split_token,
};
use crate::conditions::value::Cell;
use crate::errors::tperrors::ErrorKind;
use crate::text::numbers::{is_digit, is_int, parse_int};
use crate::text::splitting::{bracket_words, flush, scan};
use crate::text::{find, is_space, lemma_find_from, occurs_at};
use vstd::prelude::*;

verus! {

/// Whether `t` is one of the words that the evaluation of a group reads by
/// itself: `NOT`, `AND`, `OR` and the two round brackets.
pub open spec fn is_reserved(t: Seq<char>) -> bool {
    t == "NOT"@ || t == "AND"@ || t == "OR"@ || t == "("@ || t == ")"@
}

/// A text that writes an integer holds no quote and is no reserved word.
pub proof fn lemma_int_is_plain(s: Seq<char>)
    requires
        is_int(s),
    ensures
        first_quote(s) is None,
        !is_reserved(s),
        !is_dangling(s),
{
    reveal_strlit("NOT");
    reveal_strlit("AND");
    reveal_strlit("OR");
    reveal_strlit("(");
    reveal_strlit(")");
    let signed = s[0] == '-' || s[0] == '+';
    if signed {
        assert(s.drop_first().len() > 0);
        assert(is_digit(s.drop_first()[0]));
        assert(s.drop_first()[0] == s[1]);
    } else {
        assert(is_digit(s[0]));
    }
    assert forall|k: int| 0 <= k < s.len() implies !is_quote(#[trigger] s[k]) by {
        if signed {
            if k > 0 {
                assert(is_digit(s.drop_first()[k - 1]));
            }
        } else {
            assert(is_digit(s[k]));
        }
    }
    lemma_no_quote(s, 0);
}

/// A text without quotes has no first quote.
pub proof fn lemma_no_quote(s: Seq<char>, from: int)
    requires
        0 <= from,
        forall|k: int| 0 <= k < s.len() ==> !is_quote(#[trigger] s[k]),
    ensures
        first_quote_from(s, from) is None,
    decreases s.len() - from,
{
    if from < s.len() {
        lemma_no_quote(s, from + 1);
    }
}

/// The comparison of two integer constants under one of the six operators is
/// the natural comparison of the two integers, whatever the row holds.
pub proof fn law_constant_comparison(
    left: Seq<char>,
    op: Seq<char>,
    right: Seq<char>,
    row: Seq<(Seq<char>, Cell)>,
)
    requires
        is_int(left),
        is_int(right),
    ensures
        eval_tokens(seq![left, op, right], row) == Ok::<bool, ErrorKind>(
            compare_ints(parse_int(left)->0, operator_of(op), parse_int(right)->0),
        ),
        operator_of(op) == Operator::Equal ==> eval_tokens(seq![left, op, right], row) == Ok::<
            bool,
            ErrorKind,
        >(parse_int(left)->0 == parse_int(right)->0),
        operator_of(op) == Operator::NotEqual ==> eval_tokens(seq![left, op, right], row) == Ok::<
            bool,
            ErrorKind,
        >(parse_int(left)->0 != parse_int(right)->0),
        operator_of(op) == Operator::Greater ==> eval_tokens(seq![left, op, right], row) == Ok::<
            bool,
            ErrorKind,
        >(parse_int(left)->0 > parse_int(right)->0),
        operator_of(op) == Operator::Less ==> eval_tokens(seq![left, op, right], row) == Ok::<
            bool,
            ErrorKind,
        >(parse_int(left)->0 < parse_int(right)->0),
        operator_of(op) == Operator::GreaterEqual ==> eval_tokens(seq![left, op, right], row)
            == Ok::<bool, ErrorKind>(parse_int(left)->0 >= parse_int(right)->0),
        operator_of(op) == Operator::LessEqual ==> eval_tokens(seq![left, op, right], row) == Ok::<
            bool,
            ErrorKind,
        >(parse_int(left)->0 <= parse_int(right)->0),
{
    let tokens = seq![left, op, right];
    lemma_int_is_plain(left);
    lemma_int_is_plain(right);
    assert(tokens[0] == left);
    assert(tokens[1] == op);
    assert(tokens[2] == right);
    assert(tokens.last() == right);
    assert(read_operand(tokens, 0) == Some((left, 1int)));
    assert(read_operand(tokens, 2) == Some((right, 3int)));
    let value = compare_ints(parse_int(left)->0, operator_of(op), parse_int(right)->0);
    assert(resolve(row, left, operator_of(op), right) == Ok::<bool, ErrorKind>(value));
    assert(eval_comparison(tokens, row, 0, false) == (Step { result: Ok(value), next: 3 }));
    assert(eval_expr(tokens, row, 3, value, Joiner::First, false) == (Step {
        result: Ok(value),
        next: 3,
    }));
    assert(eval_expr(tokens, row, 0, true, Joiner::First, false) == eval_expr(
        tokens,
        row,
        3,
        combine(true, value, Joiner::First),
        Joiner::First,
        false,
    ));
}

/// A search for a closing quote finds the same token when one more token
/// stands before all of them.
pub proof fn lemma_closing_shift(w: Seq<char>, tokens: Seq<Seq<char>>, q: char, k: int)
    requires
        0 <= k,
    ensures
        closing_token(seq![w] + tokens, q, k + 1) == match closing_token(tokens, q, k) {
            Some(j) => Some(j + 1),
            None => None,
        },
    decreases tokens.len() - k,
{
    let longer = seq![w] + tokens;
    if k < tokens.len() {
        assert(longer[k + 1] == tokens[k]);
        lemma_closing_shift(w, tokens, q, k + 1);
    }
}

/// An operand reads the same when one more token stands before all of them.
pub proof fn lemma_operand_shift(w: Seq<char>, tokens: Seq<Seq<char>>, i: int)
    requires
        0 <= i < tokens.len(),
    ensures
        read_operand(seq![w] + tokens, i + 1) == match read_operand(tokens, i) {
            Some((text, next)) => Some((text, next + 1)),
            None => None,
        },
{
    let longer = seq![w] + tokens;
    let t = tokens[i];
    assert(longer[i + 1] == t);
    match first_quote(t) {
        None => {},
        Some(at) => {
            lemma_closing_shift(w, tokens, t[at], i + 1);
            lemma_closing_token(tokens, t[at], i + 1);
            match closing_token(tokens, t[at], i + 1) {
                None => {},
                Some(j) => {
                    assert(longer.subrange(i + 1, j + 2) =~= tokens.subrange(i, j + 1));
                },
            }
        },
    }
}

/// A comparison gives the same when one more token stands before all of them,
/// but for the place where it ends.
pub proof fn lemma_comparison_shift(
    w: Seq<char>,
    tokens: Seq<Seq<char>>,
    row: Seq<(Seq<char>, Cell)>,
    i: int,
    negate: bool,
)
    requires
        0 <= i < tokens.len(),
    ensures
        eval_comparison(seq![w] + tokens, row, i + 1, negate).result == eval_comparison(
            tokens,
            row,
            i,
            negate,
        ).result,
        eval_comparison(seq![w] + tokens, row, i + 1, negate).next == eval_comparison(
            tokens,
            row,
            i,
            negate,
        ).next + 1,
{
    let longer = seq![w] + tokens;
    assert(longer.last() == tokens.last());
    lemma_operand_shift(w, tokens, i);
    lemma_read_operand_bounds(tokens, i);
    match read_operand(tokens, i) {
        None => {},
        Some((left, at)) => {
            if at + 1 < tokens.len() {
                assert(longer[at + 1] == tokens[at]);
                lemma_operand_shift(w, tokens, at + 1);
            }
        },
    }
}

/// A `NOT` before a comparison gives the opposite of what the comparison gives
/// without it.
///
/// `tokens` is one comparison and nothing more: it does not start with a
/// reserved word, succeeds, and ends where the tokens end.
pub proof fn law_not_complements(tokens: Seq<Seq<char>>, row: Seq<(Seq<char>, Cell)>)
    requires
        tokens.len() > 0,
        !is_reserved(tokens[0]),
        eval_comparison(tokens, row, 0, false).result is Ok,
        eval_comparison(tokens, row, 0, false).next == tokens.len(),
    ensures
        eval_tokens(tokens, row) is Ok,
        eval_tokens(seq!["NOT"@] + tokens, row) == Ok::<bool, ErrorKind>(
            !eval_tokens(tokens, row)->Ok_0,
        ),
{
    let plain = eval_comparison(tokens, row, 0, false);
    let value = plain.result->Ok_0;
    let n = tokens.len() as int;
    // without the NOT
    assert(eval_expr(tokens, row, n, combine(true, value, Joiner::First), Joiner::First, false)
        == (Step { result: Ok(value), next: n }));
    assert(eval_tokens(tokens, row) == Ok::<bool, ErrorKind>(value));
    // the same comparison under a NOT
    let negated = eval_comparison(tokens, row, 0, true);
    lemma_read_operand_bounds(tokens, 0);
    match read_operand(tokens, 0) {
        None => {},
        Some((left, at)) => {
            if at + 1 < tokens.len() {
                lemma_read_operand_bounds(tokens, at + 1);
            }
        },
    }
    assert(negated == (Step { result: Ok(!value), next: n }));
    // with the NOT in front
    let longer = seq!["NOT"@] + tokens;
    assert(longer[0] == "NOT"@);
    assert(longer[1] == tokens[0]);
    lemma_comparison_shift("NOT"@, tokens, row, 0, true);
    let term = eval_comparison(longer, row, 1, true);
    assert(term == (Step { result: Ok(!value), next: n + 1 }));
    assert(eval_expr(longer, row, n + 1, !value, Joiner::First, false) == (Step {
        result: Ok(!value),
        next: n + 1,
    }));
    assert(eval_expr(longer, row, 1, true, Joiner::First, true) == eval_expr(
        longer,
        row,
        n + 1,
        combine(true, !value, Joiner::First),
        Joiner::First,
        false,
    ));
    assert(eval_expr(longer, row, 0, true, Joiner::First, false) == eval_expr(
        longer,
        row,
        1,
        true,
        Joiner::First,
        true,
    ));
}

/// A condition whose brackets do not balance is a syntax error, whatever else
/// it holds and whatever the row.
pub proof fn law_unbalanced_brackets(text: Seq<char>, row: Seq<(Seq<char>, Cell)>)
    requires
        !balanced(bracket_words(text)),
    ensures
        meets(text, row) == Err::<bool, ErrorKind>(ErrorKind::Syntax),
{
}

/// Whether `op` writes one of the six comparisons of integers.
pub open spec fn is_comparison(op: Seq<char>) -> bool {
    operator_of(op) != Operator::Unknown && operator_of(op) != Operator::DoubleEqual
}

/// Whether `w` holds neither white space nor a round bracket.
pub open spec fn is_plain(w: Seq<char>) -> bool {
    forall|i: int| 0 <= i < w.len() ==> !is_space(#[trigger] w[i]) && w[i] != '(' && w[i] != ')'
}

/// Whether `w` holds none of the characters that operators are made of.
pub open spec fn has_no_operator(w: Seq<char>) -> bool {
    forall|i: int| 0 <= i < w.len() ==> (#[trigger] w[i]) != '=' && w[i] != '<' && w[i] != '>'
}

/// Reading a plain word adds its characters to the word being read.
pub proof fn lemma_scan_word(prefix: Seq<char>, w: Seq<char>)
    requires
        is_plain(w),
    ensures
        scan(prefix + w, true) == (scan(prefix, true).0, scan(prefix, true).1 + w),
    decreases w.len(),
{
    if w.len() == 0 {
        assert(prefix + w =~= prefix);
        assert(scan(prefix, true).1 + w =~= scan(prefix, true).1);
    } else {
        let front = w.drop_last();
        assert(is_plain(front)) by {
            assert forall|i: int| 0 <= i < front.len() implies !is_space(#[trigger] front[i])
                && front[i] != '(' && front[i] != ')' by {
                assert(front[i] == w[i]);
            }
        }
        lemma_scan_word(prefix, front);
        assert((prefix + w).drop_last() =~= prefix + front);
        assert((prefix + w).last() == w[w.len() - 1]);
        assert((scan(prefix, true).1 + front).push(w.last()) =~= scan(prefix, true).1 + w);
    }
}

/// Three plain words with one space between neighbours are read as those
/// three words.
pub proof fn lemma_three_words(a: Seq<char>, b: Seq<char>, c: Seq<char>)
    requires
        is_plain(a),
        is_plain(b),
        is_plain(c),
        a.len() > 0,
        b.len() > 0,
        c.len() > 0,
    ensures
        bracket_words(a + seq![' '] + b + seq![' '] + c) == seq![a, b, c],
{
    let none = Seq::<char>::empty();
    let s1 = none + a;
    lemma_scan_word(none, a);
    assert(scan(s1, true) == (Seq::<Seq<char>>::empty(), none + a));
    assert(none + a =~= a);
    let s2 = s1 + seq![' '];
    assert(s2.drop_last() =~= s1);
    assert(s2.last() == ' ');
    assert(scan(s2, true) == (seq![a], none)) by {
        assert(flush(Seq::<Seq<char>>::empty(), a) =~= seq![a]);
    }
    let s3 = s2 + b;
    lemma_scan_word(s2, b);
    assert(none + b =~= b);
    let s4 = s3 + seq![' '];
    assert(s4.drop_last() =~= s3);
    assert(s4.last() == ' ');
    assert(scan(s4, true) == (seq![a, b], none)) by {
        assert(flush(seq![a], b) =~= seq![a, b]);
    }
    let s5 = s4 + c;
    lemma_scan_word(s4, c);
    assert(none + c =~= c);
    assert(flush(seq![a, b], c) =~= seq![a, b, c]);
    assert(s5 =~= a + seq![' '] + b + seq![' '] + c);
}

/// A pattern one of whose characters `s` lacks does not stand in `s`.
pub proof fn lemma_absent(s: Seq<char>, pat: Seq<char>, j: int)
    requires
        0 <= j < pat.len(),
        forall|k: int| 0 <= k < s.len() ==> (#[trigger] s[k]) != pat[j],
    ensures
        find(s, pat) is None,
{
    lemma_find_from(s, pat, 0);
    match find(s, pat) {
        Some(i) => {
            assert(s.subrange(i, i + pat.len())[j] == s[i + j]);
        },
        None => {},
    }
}

/// A pattern does not stand in another text of its length, nor in a shorter
/// one.
pub proof fn lemma_find_in_short(s: Seq<char>, pat: Seq<char>)
    requires
        s.len() <= pat.len(),
        s != pat,
    ensures
        find(s, pat) is None,
{
    lemma_find_from(s, pat, 0);
    match find(s, pat) {
        Some(i) => {
            assert(s.subrange(0, s.len() as int) =~= s);
        },
        None => {},
    }
}

/// A word without an operator character is one token.
pub proof fn lemma_word_is_one_token(w: Seq<char>)
    requires
        has_no_operator(w),
    ensures
        split_token(w) == Some(seq![w]),
{
    reveal_strlit("=>");
    reveal_strlit("=<");
    reveal_strlit(">=");
    reveal_strlit("<=");
    reveal_strlit("!=");
    reveal_strlit("=");
    reveal_strlit("<");
    reveal_strlit(">");
    lemma_absent(w, "=>"@, 0);
    lemma_absent(w, "=<"@, 0);
    lemma_absent(w, ">="@, 0);
    lemma_absent(w, "<="@, 0);
    lemma_absent(w, "!="@, 1);
    lemma_absent(w, "="@, 0);
    lemma_absent(w, "<"@, 0);
    lemma_absent(w, ">"@, 0);
}

/// One of the six comparison operators is a plain word and one token, and is
/// no reserved word.
pub proof fn lemma_operator_is_one_token(op: Seq<char>)
    requires
        is_comparison(op),
    ensures
        split_token(op) == Some(seq![op]),
        is_plain(op),
        op.len() > 0,
        !is_reserved(op),
{
    reveal_strlit("=>");
    reveal_strlit("=<");
    reveal_strlit(">=");
    reveal_strlit("<=");
    reveal_strlit("!=");
    reveal_strlit("=");
    reveal_strlit("<");
    reveal_strlit(">");
    reveal_strlit("NOT");
    reveal_strlit("AND");
    reveal_strlit("OR");
    reveal_strlit("(");
    reveal_strlit(")");
    assert(op != "=>"@) by {
        if op == "=>"@ {
            assert(op[0] == '=' && op[1] == '>');
            assert("="@.len() == 1 && "!="@[0] == '!' && ">"@.len() == 1 && "<"@.len() == 1
                && ">="@[0] == '>' && "<="@[0] == '<');
        }
    }
    assert(op != "=<"@) by {
        if op == "=<"@ {
            assert(op[0] == '=' && op[1] == '<');
            assert("="@.len() == 1 && "!="@[0] == '!' && ">"@.len() == 1 && "<"@.len() == 1
                && ">="@[0] == '>' && "<="@[0] == '<');
        }
    }
    assert(op.len() <= 2);
    lemma_find_in_short(op, "=>"@);
    lemma_find_in_short(op, "=<"@);
    assert(op[0] == '=' || op[0] == '!' || op[0] == '>' || op[0] == '<');
    if op.len() == 2 {
        assert(op[1] == '=');
    }
    assert(is_plain(op)) by {
        assert forall|i: int| 0 <= i < op.len() implies !is_space(#[trigger] op[i]) && op[i]
            != '(' && op[i] != ')' by {
            if i == 0 {
            } else {
                assert(op[i] == op[1]);
            }
        }
    }
}

/// A text that writes an integer is a plain word without operator characters.
pub proof fn lemma_int_is_a_word(s: Seq<char>)
    requires
        is_int(s),
    ensures
        is_plain(s),
        has_no_operator(s),
        s.len() > 0,
{
    let signed = s[0] == '-' || s[0] == '+';
    assert forall|k: int| 0 <= k < s.len() implies !is_space(#[trigger] s[k]) && s[k] != '('
        && s[k] != ')' && s[k] != '=' && s[k] != '<' && s[k] != '>' by {
        if signed {
            if k > 0 {
                assert(is_digit(s.drop_first()[k - 1]));
            }
        } else {
            assert(is_digit(s[k]));
        }
    }
}

/// The comparison of two integer constants, written with one space before and
/// one behind the operator, gives the natural comparison of the two integers:
/// for every pair of integers that 64 bits hold, each of the six operators,
/// and every row.
pub proof fn law_constant_comparison_as_text(
    left: Seq<char>,
    op: Seq<char>,
    right: Seq<char>,
    row: Seq<(Seq<char>, Cell)>,
)
    requires
        is_int(left),
        is_int(right),
        is_comparison(op),
    ensures
        meets(left + " "@ + op + " "@ + right, row) == Ok::<bool, ErrorKind>(
            compare_ints(parse_int(left)->0, operator_of(op), parse_int(right)->0),
        ),
{
    reveal_strlit(" ");
    reveal_strlit("(");
    reveal_strlit(")");
    assert(" "@ =~= seq![' ']);
    let text = left + " "@ + op + " "@ + right;
    let tokens = seq![left, op, right];
    lemma_int_is_a_word(left);
    lemma_int_is_a_word(right);
    lemma_int_is_plain(left);
    lemma_int_is_plain(right);
    lemma_operator_is_one_token(op);
    lemma_three_words(left, op, right);
    assert(bracket_words(text) == tokens);
    lemma_word_is_one_token(left);
    lemma_word_is_one_token(right);
    // no token is a bracket
    let t2 = seq![left, op];
    let t1 = seq![left];
    assert(tokens.drop_last() =~= t2);
    assert(t2.drop_last() =~= t1);
    assert(t1.drop_last() =~= Seq::<Seq<char>>::empty());
    assert(count_of(t1, "("@) == 0 && count_of(t1, ")"@) == 0) by {
        assert(count_of(t1.drop_last(), "("@) == 0);
        assert(count_of(t1.drop_last(), ")"@) == 0);
    }
    assert(count_of(t2, "("@) == 0 && count_of(t2, ")"@) == 0);
    assert(count_of(tokens, "("@) == 0 && count_of(tokens, ")"@) == 0);
    // every word is one token
    assert(resplit(t1) == Some(t1)) by {
        assert(resplit(t1.drop_last()) == Some(Seq::<Seq<char>>::empty()));
        assert(Seq::<Seq<char>>::empty() + seq![left] =~= t1);
    }
    assert(resplit(t2) == Some(t2)) by {
        assert(t1 + seq![op] =~= t2);
    }
    assert(resplit(tokens) == Some(tokens)) by {
        assert(t2 + seq![right] =~= tokens);
    }
    law_constant_comparison(left, op, right, row);
}

/// Reading a text behind a prefix that ends a word gives the words of the
/// prefix, then what reading the text alone gives.
pub proof fn lemma_scan_after(prefix: Seq<char>, s: Seq<char>)
    requires
        scan(prefix, true).1.len() == 0,
    ensures
        scan(prefix + s, true) == (scan(prefix, true).0 + scan(s, true).0, scan(s, true).1),
        bracket_words(prefix + s) == scan(prefix, true).0 + bracket_words(s),
    decreases s.len(),
{
    let first = scan(prefix, true).0;
    if s.len() == 0 {
        assert(prefix + s =~= prefix);
        assert(first + scan(s, true).0 =~= first);
        assert(scan(prefix, true).1 =~= scan(s, true).1);
    } else {
        lemma_scan_after(prefix, s.drop_last());
        assert((prefix + s).drop_last() =~= prefix + s.drop_last());
        assert((prefix + s).last() == s.last());
        let (done, buf) = scan(s.drop_last(), true);
        assert(first + flush(done, buf) =~= flush(first + done, buf));
        assert(first + flush(done, buf).push(seq![s.last()]) =~= flush(first + done, buf).push(
            seq![s.last()],
        ));
    }
    let (done, buf) = scan(s, true);
    assert(first + flush(done, buf) =~= flush(first + done, buf));
}

/// The tokens of two lists of words in a row are the tokens of the first,
/// then the tokens of the second.
pub proof fn lemma_resplit_concat(a: Seq<Seq<char>>, b: Seq<Seq<char>>)
    ensures
        resplit(a + b) == match (resplit(a), resplit(b)) {
            (Some(x), Some(y)) => Some(x + y),
            _ => None,
        },
    decreases b.len(),
{
    if b.len() == 0 {
        assert(a + b =~= a);
        match resplit(a) {
            Some(x) => {
                assert(x + Seq::<Seq<char>>::empty() =~= x);
            },
            None => {},
        }
    } else {
        lemma_resplit_concat(a, b.drop_last());
        assert((a + b).drop_last() =~= a + b.drop_last());
        assert((a + b).last() == b.last());
        match (resplit(a), resplit(b.drop_last()), split_token(b.last())) {
            (Some(x), Some(y), Some(z)) => {
                assert((x + y) + z =~= x + (y + z));
            },
            _ => {},
        }
    }
}

/// A word stands in two lists in a row as often as in the first and in the
/// second together.
pub proof fn lemma_count_concat(a: Seq<Seq<char>>, b: Seq<Seq<char>>, word: Seq<char>)
    ensures
        count_of(a + b, word) == count_of(a, word) + count_of(b, word),
    decreases b.len(),
{
    if b.len() == 0 {
        assert(a + b =~= a);
    } else {
        lemma_count_concat(a, b.drop_last(), word);
        assert((a + b).drop_last() =~= a + b.drop_last());
        assert((a + b).last() == b.last());
    }
}

/// Whether the condition `text` is one comparison and nothing more that
/// evaluates for `row`: its brackets balance, its words give tokens, the
/// first token is no reserved word, and the comparison that starts there
/// succeeds and ends where the tokens end.
pub open spec fn is_one_comparison(text: Seq<char>, row: Seq<(Seq<char>, Cell)>) -> bool {
    let tokens = resplit(bracket_words(text))->0;
    &&& balanced(bracket_words(text))
    &&& resplit(bracket_words(text)) is Some
    &&& tokens.len() > 0
    &&& !is_reserved(tokens[0])
    &&& eval_comparison(tokens, row, 0, false).result is Ok
    &&& eval_comparison(tokens, row, 0, false).next == tokens.len()
}

/// `NOT` and a space before a comparison give the opposite of what the
/// comparison gives alone.
pub proof fn law_not_complements_as_text(text: Seq<char>, row: Seq<(Seq<char>, Cell)>)
    requires
        is_one_comparison(text, row),
    ensures
        meets(text, row) is Ok,
        meets("NOT "@ + text, row) == Ok::<bool, ErrorKind>(!meets(text, row)->Ok_0),
{
    reveal_strlit("NOT ");
    reveal_strlit("NOT");
    reveal_strlit("(");
    reveal_strlit(")");
    let words = bracket_words(text);
    let tokens = resplit(words)->0;
    let not = "NOT"@;
    let none = Seq::<char>::empty();
    // the words of the longer text
    assert(is_plain(not));
    lemma_scan_word(none, not);
    assert(none + not =~= not);
    let prefix = not + seq![' '];
    assert(prefix.drop_last() =~= not);
    assert(scan(prefix, true) == (seq![not], none)) by {
        assert(flush(Seq::<Seq<char>>::empty(), not) =~= seq![not]);
    }
    assert(prefix =~= "NOT "@);
    lemma_scan_after(prefix, text);
    assert(bracket_words("NOT "@ + text) == seq![not] + words);
    // its brackets balance
    let one = seq![not];
    assert(one.drop_last() =~= Seq::<Seq<char>>::empty());
    assert(count_of(one, "("@) == 0 && count_of(one, ")"@) == 0) by {
        assert(count_of(one.drop_last(), "("@) == 0);
        assert(count_of(one.drop_last(), ")"@) == 0);
    }
    lemma_count_concat(one, words, "("@);
    lemma_count_concat(one, words, ")"@);
    // its tokens
    assert(has_no_operator(not));
    lemma_word_is_one_token(not);
    assert(resplit(one) == Some(one)) by {
        assert(resplit(one.drop_last()) == Some(Seq::<Seq<char>>::empty()));
        assert(Seq::<Seq<char>>::empty() + seq![not] =~= one);
    }
    lemma_resplit_concat(one, words);
    law_not_complements(tokens, row);
}

/// A group in round brackets is evaluated by itself before it is joined
/// with what stands before it: what the group gives depends on nothing
/// outside it, and where it succeeds the evaluation goes on behind it with
/// the group's value, inverted under a waiting `NOT`, joined to what stood
/// before by the last joining word.
pub proof fn law_group_evaluates_alone(
    tokens: Seq<Seq<char>>,
    row: Seq<(Seq<char>, Cell)>,
    i: int,
    acc: bool,
    joiner: Joiner,
    negate: bool,
)
    requires
        0 <= i < tokens.len(),
        tokens[i] == "("@,
    ensures
        match eval_expr(tokens, row, i + 1, true, Joiner::First, false).result {
            Ok(value) => eval_expr(tokens, row, i, acc, joiner, negate) == eval_expr(
                tokens,
                row,
                eval_expr(tokens, row, i + 1, true, Joiner::First, false).next,
                combine(acc, apply(negate, value), joiner),
                joiner,
                false,
            ),
            Err(kind) => eval_expr(tokens, row, i, acc, joiner, negate).result == Err::<
                bool,
                ErrorKind,
            >(kind),
        },
{
    reveal_strlit("(");
    reveal_strlit("NOT");
    lemma_expr_advances(tokens, row, i + 1, true, Joiner::First, false);
}

/// Whether `s` holds the character `c` nowhere.
pub open spec fn lacks(s: Seq<char>, c: char) -> bool {
    forall|k: int| 0 <= k < s.len() ==> (#[trigger] s[k]) != c
}

/// A text that writes an integer holds none of the characters of the
/// operators, no white space and no bracket.
pub proof fn lemma_int_lacks(s: Seq<char>)
    requires
        is_int(s),
    ensures
        lacks(s, '='),
        lacks(s, '<'),
        lacks(s, '>'),
        lacks(s, '!'),
        is_plain(s),
        s.len() > 0,
{
    let signed = s[0] == '-' || s[0] == '+';
    assert forall|k: int| 0 <= k < s.len() implies (#[trigger] s[k]) != '=' && s[k] != '<' && s[k]
        != '>' && s[k] != '!' && !is_space(s[k]) && s[k] != '(' && s[k] != ')' by {
        if signed {
            if k > 0 {
                assert(is_digit(s.drop_first()[k - 1]));
            }
        } else {
            assert(is_digit(s[k]));
        }
    }
}

/// A character that three texts lack is not in the three in a row.
pub proof fn lemma_lacks_in_three(a: Seq<char>, b: Seq<char>, c: Seq<char>, what: char)
    requires
        lacks(a, what),
        lacks(b, what),
        lacks(c, what),
    ensures
        lacks(a + b + c, what),
{
    let w = a + b + c;
    assert forall|k: int| 0 <= k < w.len() implies (#[trigger] w[k]) != what by {
        if k < a.len() {
            assert(w[k] == a[k]);
        } else if k < a.len() + b.len() {
            assert(w[k] == b[k - a.len()]);
        } else {
            assert(w[k] == c[k - a.len() - b.len()]);
        }
    }
}

/// A pattern stands where it is put between two texts.
pub proof fn lemma_occurs_between(a: Seq<char>, pat: Seq<char>, b: Seq<char>)
    ensures
        occurs_at(a + pat + b, pat, a.len() as int),
{
    let w = a + pat + b;
    let at = a.len() as int;
    assert(w.subrange(at, at + pat.len()) =~= pat) by {
        assert forall|k: int| 0 <= k < pat.len() implies w.subrange(at, at + pat.len())[k]
            == pat[k] by {
            assert(w[at + k] == (a + pat)[at + k]);
        }
    }
}

/// A pattern does not stand at an index of a text where the text holds
/// another character than the pattern's first.
pub proof fn lemma_not_at(w: Seq<char>, pat: Seq<char>, j: int)
    requires
        pat.len() > 0,
        0 <= j < w.len(),
        w[j] != pat[0],
    ensures
        !occurs_at(w, pat, j),
{
    if occurs_at(w, pat, j) {
        assert(w.subrange(j, j + pat.len())[0] == w[j]);
    }
}

/// A pattern stands first behind a text that lacks the pattern's first
/// character, where it stands there.
pub proof fn lemma_find_behind(a: Seq<char>, pat: Seq<char>, b: Seq<char>)
    requires
        pat.len() > 0,
        lacks(a, pat[0]),
    ensures
        find(a + pat + b, pat) == Some(a.len() as int),
{
    let w = a + pat + b;
    let at = a.len() as int;
    lemma_occurs_between(a, pat, b);
    lemma_find_from(w, pat, 0);
    match find(w, pat) {
        None => {
            assert(!occurs_at(w, pat, at));
        },
        Some(i) => {
            if i < at {
                assert(w[i] == a[i]);
                lemma_not_at(w, pat, i);
            } else if i > at {
                assert(!occurs_at(w, pat, at));
            }
        },
    }
}

/// A pattern of `=` and one more character does not stand in two operands
/// without `=` around an operator that ends in `=`, unless the right operand
/// starts with the pattern's second character.
pub proof fn lemma_not_reversed(left: Seq<char>, op: Seq<char>, right: Seq<char>, pat: Seq<char>)
    requires
        op.len() == 2,
        op[0] != '=',
        op[1] == '=',
        pat.len() == 2,
        pat[0] == '=',
        lacks(left, '='),
        lacks(right, '='),
        right.len() > 0,
        right[0] != pat[1],
    ensures
        find(left + op + right, pat) is None,
{
    let w = left + op + right;
    lemma_find_from(w, pat, 0);
    match find(w, pat) {
        None => {},
        Some(j) => {
            assert(w.subrange(j, j + 2)[0] == w[j]);
            assert(w.subrange(j, j + 2)[1] == w[j + 1]);
            if j < left.len() {
                assert(w[j] == left[j]);
            } else if j < left.len() + 2 {
                assert(w[j] == op[j - left.len()]);
                assert(j == left.len() + 1);
                assert(w[j + 1] == right[0]);
            } else {
                assert(w[j] == right[j - left.len() - 2]);
            }
        },
    }
}

/// Two integers with one of the six operators between them and no space are
/// cut at that operator, and hold no rejected spelling.
pub proof fn lemma_unspaced_cut(left: Seq<char>, op: Seq<char>, right: Seq<char>)
    requires
        is_int(left),
        is_int(right),
        is_comparison(op),
    ensures
        !misspelled(left + op + right),
        operator_cut(left + op + right) == Some((left.len() as int, op.len() as int)),
{
    reveal_strlit("=>");
    reveal_strlit("=<");
    reveal_strlit(">=");
    reveal_strlit("<=");
    reveal_strlit("!=");
    reveal_strlit("=");
    reveal_strlit("<");
    reveal_strlit(">");
    lemma_int_lacks(left);
    lemma_int_lacks(right);
    let w = left + op + right;
    match operator_of(op) {
        Operator::Equal => {
            assert(op[0] == '=');
            assert(lacks(op, '>') && lacks(op, '<') && lacks(op, '!'));
            lemma_lacks_in_three(left, op, right, '>');
            lemma_lacks_in_three(left, op, right, '<');
            lemma_lacks_in_three(left, op, right, '!');
            lemma_absent(w, "=>"@, 1);
            lemma_absent(w, "=<"@, 1);
            lemma_absent(w, ">="@, 0);
            lemma_absent(w, "<="@, 0);
            lemma_absent(w, "!="@, 0);
            lemma_find_behind(left, "="@, right);
        },
        Operator::NotEqual => {
            assert(op[0] == '!' && op[1] == '=');
            assert(lacks(op, '>') && lacks(op, '<'));
            lemma_lacks_in_three(left, op, right, '>');
            lemma_lacks_in_three(left, op, right, '<');
            lemma_absent(w, "=>"@, 1);
            lemma_absent(w, "=<"@, 1);
            lemma_absent(w, ">="@, 0);
            lemma_absent(w, "<="@, 0);
            lemma_find_behind(left, "!="@, right);
        },
        Operator::Greater => {
            assert(op[0] == '>');
            assert(lacks(op, '=') && lacks(op, '<') && lacks(op, '!'));
            lemma_lacks_in_three(left, op, right, '=');
            lemma_lacks_in_three(left, op, right, '<');
            lemma_lacks_in_three(left, op, right, '!');
            lemma_absent(w, "=>"@, 0);
            lemma_absent(w, "=<"@, 0);
            lemma_absent(w, ">="@, 1);
            lemma_absent(w, "<="@, 0);
            lemma_absent(w, "!="@, 0);
            lemma_absent(w, "="@, 0);
            lemma_absent(w, "<"@, 0);
            lemma_find_behind(left, ">"@, right);
        },
        Operator::Less => {
            assert(op[0] == '<');
            assert(lacks(op, '=') && lacks(op, '>') && lacks(op, '!'));
            lemma_lacks_in_three(left, op, right, '=');
            lemma_lacks_in_three(left, op, right, '>');
            lemma_lacks_in_three(left, op, right, '!');
            lemma_absent(w, "=>"@, 0);
            lemma_absent(w, "=<"@, 0);
            lemma_absent(w, ">="@, 0);
            lemma_absent(w, "<="@, 1);
            lemma_absent(w, "!="@, 0);
            lemma_absent(w, "="@, 0);
            lemma_find_behind(left, "<"@, right);
        },
        Operator::GreaterEqual => {
            assert(op[0] == '>' && op[1] == '=');
            assert(lacks(op, '<'));
            lemma_lacks_in_three(left, op, right, '<');
            lemma_not_reversed(left, op, right, "=>"@);
            lemma_absent(w, "=<"@, 1);
            lemma_find_behind(left, ">="@, right);
        },
        Operator::LessEqual => {
            assert(op[0] == '<' && op[1] == '=');
            assert(lacks(op, '>'));
            lemma_lacks_in_three(left, op, right, '>');
            lemma_absent(w, "=>"@, 1);
            lemma_not_reversed(left, op, right, "=<"@);
            lemma_absent(w, ">="@, 0);
            lemma_find_behind(left, "<="@, right);
        },
        _ => {},
    }
}

/// The comparison of two integer constants, written without a space before
/// or behind the operator, gives the natural comparison of the two integers:
/// for every pair of integers that 64 bits hold, each of the six operators,
/// and every row.
pub proof fn law_constant_comparison_unspaced(
    left: Seq<char>,
    op: Seq<char>,
    right: Seq<char>,
    row: Seq<(Seq<char>, Cell)>,
)
    requires
        is_int(left),
        is_int(right),
        is_comparison(op),
    ensures
        meets(left + op + right, row) == Ok::<bool, ErrorKind>(
            compare_ints(parse_int(left)->0, operator_of(op), parse_int(right)->0),
        ),
{
    reveal_strlit("(");
    reveal_strlit(")");
    let w = left + op + right;
    let tokens = seq![left, op, right];
    let none = Seq::<char>::empty();
    lemma_int_lacks(left);
    lemma_int_lacks(right);
    lemma_operator_is_one_token(op);
    // the text is one word
    assert(is_plain(w)) by {
        assert forall|k: int| 0 <= k < w.len() implies !is_space(#[trigger] w[k]) && w[k] != '('
            && w[k] != ')' by {
            if k < left.len() {
                assert(w[k] == left[k]);
            } else if k < left.len() + op.len() {
                assert(w[k] == op[k - left.len()]);
            } else {
                assert(w[k] == right[k - left.len() - op.len()]);
            }
        }
    }
    lemma_scan_word(none, w);
    assert(none + w =~= w);
    assert(flush(Seq::<Seq<char>>::empty(), w) =~= seq![w]);
    let words = seq![w];
    assert(bracket_words(w) == words);
    // which is no bracket
    assert(words.drop_last() =~= Seq::<Seq<char>>::empty());
    assert(w.len() >= 3);
    assert(count_of(words, "("@) == 0 && count_of(words, ")"@) == 0) by {
        assert(count_of(words.drop_last(), "("@) == 0);
        assert(count_of(words.drop_last(), ")"@) == 0);
    }
    // and is cut into the three tokens
    lemma_unspaced_cut(left, op, right);
    let at = left.len() as int;
    let n = op.len() as int;
    assert(w.subrange(0, at) =~= left);
    assert(w.subrange(at, at + n) =~= op);
    assert(w.subrange(at + n, w.len() as int) =~= right);
    assert(piece(left) + seq![op] + piece(right) =~= tokens);
    assert(split_token(w) == Some(tokens));
    assert(resplit(words) == Some(tokens)) by {
        assert(resplit(words.drop_last()) == Some(Seq::<Seq<char>>::empty()));
        assert(Seq::<Seq<char>>::empty() + tokens =~= tokens);
    }
    law_constant_comparison(left, op, right, row);
}

} // verus!
