use tp_individual::conditions::condition::Condition;
use tp_individual::conditions::value::Value;
use tp_individual::errors::tperrors::ErrorKind;

fn john() -> Condition {
    Condition::new(Vec::from([
        ("name".to_string(), Value::String("John".to_string())),
        ("age".to_string(), Value::Integer(20)),
    ]))
}

#[test]
fn condition_condition_and() {
    let conditions = john();

    let str_conditions = vec![
        "name = 'John' AND age = 20",
        "age = 20 AND name = 'John'", // backwards should work too..
    ];

    for str_condition in str_conditions {
        assert_eq!(conditions.matches_condition(str_condition).unwrap(), true);
    }
}

#[test]
fn condition_condition_or() {
    let conditions = john();

    let str_conditions = vec!["name = 'John'", "age = 20 OR name = 'John'"];

    for str_condition in str_conditions {
        assert_eq!(conditions.matches_condition(str_condition).unwrap(), true);
    }
}

#[test]
fn condition_condition_not() {
    let conditions = Condition::new(Vec::from([("age".to_string(), Value::Integer(20))]));

    let str_conditions = vec![
        "NOT age != 20", // not
    ];

    for str_condition in str_conditions {
        assert_ne!(conditions.matches_condition(str_condition).unwrap(), false);
    }
}

#[test]
fn condition_condition_multiple_or_with_same_column() {
    let conditions = john();

    let str_conditions = vec![
        "name = 'Marcelo' OR name = 'John'",
        "age = 20 OR age = 30",
        "name = 'Marcelo' OR age = 20",
    ];

    for str_condition in str_conditions {
        assert_eq!(conditions.matches_condition(str_condition).unwrap(), true);
    }
}

#[test]
fn condition_contains_spaces_returns_true() {
    let conditions = Condition::new(Vec::from([(
        "Correo Electronico".to_string(),
        Value::String("test@fi.uba.ar".to_string()),
    )]));

    let condition = "'Correo Electronico'='test@fi.uba.ar'";

    assert_eq!(conditions.matches_condition(condition).unwrap(), true);

    let condition = "'Correo Electronico'=test@fi.uba.ar";

    assert_eq!(conditions.matches_condition(condition).unwrap(), true);
}

#[test]
fn condition_contains_spaces_missing_quote_returns_err() {
    let conditions = Condition::new(Vec::from([(
        "Correo Electronico".to_string(),
        Value::String("test@fi.uba.ar".to_string()),
    )]));

    // we miss in purpose the ' on the column
    let condition = "'Correo Electronico=test@fi.uba.ar";

    assert!(conditions.matches_condition(condition).is_err());

    let conditions = Condition::new(Vec::from([(
        "Correo Electronico".to_string(),
        Value::String("test@fi.uba.ar".to_string()),
    )]));

    // we miss in purpose the ' on the value
    let condition = "'Correo Electronico'='test@fi.uba.ar";

    assert!(conditions.matches_condition(condition).is_err());
}

#[test]
fn conditions_as_constant_resolves_ok() {
    let conditions = Condition::new(Vec::from([("age".to_string(), Value::Integer(20))]));

    let condition = "20 = 20";

    assert_eq!(conditions.matches_condition(condition).unwrap(), true);

    let condition = "20!=20";

    assert_eq!(conditions.matches_condition(condition).unwrap(), false);

    let condition = "20 > 20";

    assert_eq!(conditions.matches_condition(condition).unwrap(), false);

    let condition = "20<20";

    assert_eq!(conditions.matches_condition(condition).unwrap(), false);

    let condition = "20>=20";

    assert_eq!(conditions.matches_condition(condition).unwrap(), true);

    let condition = "20 <= 20";

    assert_eq!(conditions.matches_condition(condition).unwrap(), true);
}

#[test]
fn conditions_advance_consult_with_nested_conditions_contains_unbalanced_scape_throws_error() {
    let conditions = Condition::new(Vec::from([(
        "Correo Electronico".to_string(),
        Value::String("test@fi.uba.ar".to_string()),
    )]));

    let condition = "(Edad>15 AND Nombre='Lucía)";
    // this condition isn't finished, scape missing, so we must throw an error

    assert!(conditions.matches_condition(condition).is_err());
}

fn lucia_and_paula() -> Condition {
    Condition::new(Vec::from([
        ("Edad".to_string(), Value::Integer(20)),
        ("Nombre".to_string(), Value::String("Lucía".to_string())),
        ("Nombre".to_string(), Value::String("Paula".to_string())),
    ]))
}

#[test]
fn conditions_advance_nested_conditions_contains_scapes_matches() {
    let conditions = lucia_and_paula();

    let condition = "(Edad > 15 AND Nombre='Lucía') OR Nombre='Paula'";

    assert!(conditions.matches_condition(condition).is_ok());
}

#[test]
fn conditions_without_balanced_parenthesis_fails() {
    let conditions = lucia_and_paula();

    let condition = "(Edad > 15 AND Nombre='Lucía' OR Nombre='Paula'";

    assert!(conditions.matches_condition(condition).is_err());
}

#[test]
fn conditions_negator_with_scape_returns_matches_ok() {
    let conditions = Condition::new(Vec::from([(
        "Nombre".to_string(),
        Value::String("Lucía".to_string()),
    )]));

    let condition = "NOT Nombre!='Lucía'";

    assert!(conditions.matches_condition(condition).is_ok());
}

#[test]
fn unbalanced_brackets_are_a_syntax_error() {
    let conditions = lucia_and_paula();
    let error = conditions
        .matches_condition("(Edad>15 AND Nombre='Lucía'")
        .unwrap_err();
    assert_eq!(error.kind(), ErrorKind::Syntax);
    let error = conditions.matches_condition("Edad > 15 )").unwrap_err();
    assert_eq!(error.kind(), ErrorKind::Syntax);
}

#[test]
fn not_gives_the_complement() {
    let conditions = Condition::new(Vec::from([(
        "Nombre".to_string(),
        Value::String("Lucía".to_string()),
    )]));
    assert_eq!(conditions.matches_condition("Nombre!='Lucía'").unwrap(), false);
    assert_eq!(conditions.matches_condition("NOT Nombre!='Lucía'").unwrap(), true);
    assert_eq!(conditions.matches_condition("Nombre = Lucía").unwrap(), true);
    assert_eq!(conditions.matches_condition("NOT Nombre = Lucía").unwrap(), false);
    assert_eq!(conditions.matches_condition("NOT (Nombre = Lucía)").unwrap(), false);
}

#[test]
fn quoted_value_with_a_space_matches_exactly() {
    let conditions = Condition::new(Vec::from([(
        "Profesion".to_string(),
        Value::String("contador y ingeniero".to_string()),
    )]));
    assert_eq!(
        conditions
            .matches_condition("Profesion='contador y ingeniero'")
            .unwrap(),
        true
    );
    assert_eq!(
        conditions
            .matches_condition("Profesion = \"contador y ingeniero\"")
            .unwrap(),
        true
    );
    assert_eq!(
        conditions
            .matches_condition("Profesion='contador y'")
            .unwrap(),
        false
    );
    let error = conditions
        .matches_condition("Profesion='contador y ingeniero")
        .unwrap_err();
    assert_eq!(error.kind(), ErrorKind::Syntax);
}

#[test]
fn unknown_column_is_a_column_error() {
    let conditions = john();
    let error = conditions.matches_condition("surname = 'Doe'").unwrap_err();
    assert_eq!(error.kind(), ErrorKind::Column);
    assert_eq!(
        error.to_string(),
        "INVALID_COLUMN: Unknown column in the condition, maybe spaces are required?"
    );
}

#[test]
fn incomplete_comparisons_are_syntax_errors() {
    let conditions = john();
    for text in ["age = 20 AND", "age = 20 OR", "age =", "age", "age => 20", "age=<20"] {
        let error = conditions.matches_condition(text).unwrap_err();
        assert_eq!(error.kind(), ErrorKind::Syntax, "{}", text);
    }
}

#[test]
fn joining_words_apply_from_left_to_right() {
    let conditions = john();
    // (false AND false) OR true
    assert_eq!(
        conditions
            .matches_condition("age = 1 AND age = 2 OR age = 20")
            .unwrap(),
        true
    );
    // (true OR false) AND false
    assert_eq!(
        conditions
            .matches_condition("age = 20 OR age = 2 AND age = 3")
            .unwrap(),
        false
    );
    // brackets group first
    assert_eq!(
        conditions
            .matches_condition("age = 20 OR (age = 2 AND age = 3)")
            .unwrap(),
        true
    );
}

#[test]
fn columns_compare_with_columns() {
    let conditions = Condition::new(Vec::from([
        ("a".to_string(), Value::Integer(3)),
        ("b".to_string(), Value::Integer(5)),
        ("s".to_string(), Value::String("x".to_string())),
        ("t".to_string(), Value::String("x".to_string())),
    ]));
    assert_eq!(conditions.matches_condition("a < b").unwrap(), true);
    assert_eq!(conditions.matches_condition("a>=b").unwrap(), false);
    assert_eq!(conditions.matches_condition("s = t").unwrap(), true);
    assert_eq!(conditions.matches_condition("s == t").unwrap(), true);
    assert_eq!(conditions.matches_condition("s != t").unwrap(), false);
    assert_eq!(conditions.matches_condition("s < t").unwrap(), false);
    // a number against a text is never true
    assert_eq!(conditions.matches_condition("a = s").unwrap(), false);
    assert_eq!(conditions.matches_condition("a != s").unwrap(), false);
    // a literal that is no number never equals a number column
    assert_eq!(conditions.matches_condition("a = three").unwrap(), false);
    assert_eq!(conditions.matches_condition("a != three").unwrap(), false);
    // ordering a text column against a literal is not supported
    assert_eq!(conditions.matches_condition("s > a0").unwrap(), false);
}

#[test]
fn a_quoted_not_in_the_place_of_a_column_is_degenerate() {
    let conditions = john();
    // the quoted NOT is a term of its own, and the comparison behind it
    // takes its place
    assert_eq!(conditions.matches_condition("'NOT' age = 20").unwrap(), true);
    assert_eq!(conditions.matches_condition("'NOT' age = 21").unwrap(), false);
    // as a term it gives the opposite of a waiting NOT
    assert_eq!(
        conditions
            .matches_condition("age = 20 AND 'NOT' age = 20")
            .unwrap(),
        true
    );
    assert_eq!(
        conditions
            .matches_condition("age = 20 AND NOT 'NOT' age = 20")
            .unwrap(),
        false
    );
    // a row with a column of that name compares it
    let named = Condition::new(Vec::from([("NOT".to_string(), Value::Integer(3))]));
    assert_eq!(named.matches_condition("'NOT' = 3").unwrap(), true);
}

#[test]
fn the_empty_condition_holds() {
    let conditions = john();
    assert_eq!(conditions.matches_condition("").unwrap(), true);
    assert_eq!(conditions.matches_condition("   ").unwrap(), true);
}

#[test]
fn integer_limits_parse() {
    let conditions = Condition::new(Vec::from([("n".to_string(), Value::Integer(i64::MIN))]));
    assert_eq!(
        conditions
            .matches_condition("n = -9223372036854775808")
            .unwrap(),
        true
    );
    assert_eq!(
        conditions
            .matches_condition("9223372036854775807 > -9223372036854775808")
            .unwrap(),
        true
    );
    assert_eq!(conditions.matches_condition("+7 = 7").unwrap(), true);
    assert_eq!(conditions.matches_condition("007 = 7").unwrap(), true);
    // too large for 64 bits: no number, so the column comparison is false
    assert_eq!(
        conditions
            .matches_condition("n = 9223372036854775808")
            .unwrap(),
        false
    );
}

#[test]
fn conditions_condition_and() {
    let conditions = john();

    let str_conditions = vec![
        "name = 'John' AND age = 20",
        "age = 20 AND name = 'John'", // backwards should work too..
    ];

    for str_condition in str_conditions {
        assert_eq!(conditions.matches_condition(str_condition).unwrap(), true);
    }
}

#[test]
fn conditions_condition_or() {
    let conditions = john();

    let str_conditions = vec!["name = 'John'", "age = 20 OR name = 'John'"];

    for str_condition in str_conditions {
        assert_eq!(conditions.matches_condition(str_condition).unwrap(), true);
    }
}

#[test]
fn conditions_condition_not() {
    let conditions = Condition::new(Vec::from([("age".to_string(), Value::Integer(20))]));

    let str_conditions = vec![
        "NOT age != 20", // not
    ];

    for str_condition in str_conditions {
        assert_ne!(conditions.matches_condition(str_condition).unwrap(), false);
    }
}

#[test]
fn conditions_condition_multiple_or_with_same_column() {
    let conditions = john();

    let str_conditions = vec![
        "name = 'John' OR name = 'Marcelo'",
        "age = 20 OR age = 30",
        "name = 'Marcelo' OR age = 20",
    ];

    for str_condition in str_conditions {
        assert_eq!(conditions.matches_condition(str_condition).unwrap(), true);
    }
}

fn tokens(words: &[&str]) -> Vec<Vec<char>> {
    words.iter().map(|w| w.chars().collect()).collect()
}

#[test]
fn a_quoted_value_is_read_up_to_its_closing_quote() {
    let all = tokens(&["Profesion", "=", "'contador", "y", "ingeniero'"]);
    let mut i: usize = 2;
    let value = Condition::return_fixed_value(&all, &mut i).unwrap();
    assert_eq!(value.iter().collect::<String>(), "contador y ingeniero");
    // the cursor stands on the last token of the value
    assert_eq!(i, 4);

    let all = tokens(&["Edad", "=", "45", "AND", "x", "=", "'a", "b'"]);
    let mut i: usize = 2;
    let value = Condition::return_fixed_value(&all, &mut i).unwrap();
    assert_eq!(value.iter().collect::<String>(), "45");
    assert_eq!(i, 2);

    // the search for the closing quote ends at the next AND
    let all = tokens(&["x", "=", "'a", "AND", "y", "=", "b'"]);
    let mut i: usize = 2;
    let error = Condition::return_fixed_value(&all, &mut i).unwrap_err();
    assert_eq!(error.kind(), ErrorKind::Syntax);
    assert_eq!(i, 2);
}

#[test]
fn a_column_is_read_where_the_cursor_stands() {
    let all = tokens(&["Edad", "=", "45"]);
    let mut i: usize = 0;
    let column = Condition::return_fixed_column(&all, &mut i).unwrap();
    assert_eq!(column.iter().collect::<String>(), "Edad");
    assert_eq!(i, 0);

    let all = tokens(&["'Correo", "Electronico'", "=", "x"]);
    let mut i: usize = 0;
    let column = Condition::return_fixed_column(&all, &mut i).unwrap();
    assert_eq!(column.iter().collect::<String>(), "Correo Electronico");
    assert_eq!(i, 1);

    let all = tokens(&["'Correo", "Electronico", "=", "x"]);
    let mut i: usize = 0;
    let error = Condition::return_fixed_column(&all, &mut i).unwrap_err();
    assert_eq!(error.kind(), ErrorKind::Syntax);
    assert_eq!(i, 0);
}

#[test]
fn a_comparison_leaves_the_cursor_behind_it() {
    let row = john();
    let all = tokens(&["age", "=", "20", "AND", "name", "=", "'John", "Doe'"]);
    let mut i: usize = 0;
    assert_eq!(row.evaluate_condition(&all, &mut i, false).unwrap(), true);
    assert_eq!(i, 3);
    let mut i: usize = 4;
    assert_eq!(row.evaluate_condition(&all, &mut i, true).unwrap(), true);
    assert_eq!(i, 8);
}
