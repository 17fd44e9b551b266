use tp_individual::errors::tperrors::ErrorKind;
use tp_individual::extractors::extractor::Extractor;
use tp_individual::extractors::sqlcommand::SQLCommand;
use tp_individual::sorter::sort::SortMethod;

#[test]
fn extractor_extract_columns() {
    let extractor = Extractor::new();
    let consult: &str = "SELECT name, age FROM table;";
    let columns = extractor.extract_columns_for_select(consult).unwrap();

    assert_eq!(columns, vec!["name".to_string(), "age".to_string()]);
}

#[test]
fn extractor_extract_table() {
    let extractor = Extractor::new();

    // here i test the table name
    // should return "table" for both cases
    let consults: Vec<&str> = Vec::from([
        "SELECT name, age FROM table;",
        "SELECT name, age FROM table WHERE name = 'John';",
        "SELECT name, are FROM table ORDER BY name;",
    ]);

    for consult in consults {
        let table = extractor
            .extract_table(consult, SQLCommand::Select)
            .unwrap();
        assert_eq!(table, "table");
    }
}

#[test]
fn conditions_query() {
    let extractor = Extractor::new();

    let vec_query: Vec<&str> = vec![
        "SELECT * FROM users WHERE id = 5 AND level = 10;",
        "SELECT * FROM users WHERE id = 5 AND level = 10 ORDER BY id;",
    ];

    for q in vec_query {
        let conditions = extractor.extract_as_str_conditions(q).unwrap();
        assert_eq!(conditions, "id = 5 AND level = 10");
    }
}

#[test]
fn conditions_multiple_query_with_spaces() {
    let extractor = Extractor::new();

    let vec_query: Vec<&str> = vec![
        "SELECT * FROM users WHERE id = 5 AND level = 10;",
        "SELECT * FROM users WHERE id = 5 AND level = 10 ORDER BY id;",
        "UPDATE users SET name = 'John' WHERE id = 5 AND level = 10;",
    ];

    for q in vec_query {
        let conditions = extractor.extract_as_str_conditions(q).unwrap();
        assert_eq!(conditions, "id = 5 AND level = 10");
    }
}

#[test]
fn conditions_multiple_without_spaces() {
    let extractors = Extractor::new();

    let vec_query: Vec<&str> = vec![
        "SELECT * FROM users WHERE id=5 AND level=10;",
        "SELECT * FROM users WHERE id=5 AND level=10 ORDER BY id;",
        "UPDATE users SET name='John' WHERE id=5 AND level=10;",
    ];

    for q in vec_query {
        let conditions = extractors.extract_as_str_conditions(q).unwrap();
        assert_eq!(conditions, "id=5 AND level=10");
    }
}

#[test]
fn extractor_orderby_query_without_desc_or_asc() {
    let extractor = Extractor::new();

    let vec_query: Vec<&str> = vec![
        "SELECT * FROM users WHERE id = 5 AND level = 10 ORDER BY id;",
        "SELECT * FROM users ORDER BY id;",
    ];

    for q in vec_query {
        let orderby = extractor.extract_orderby_as_str(q);
        assert_eq!(orderby.is_some(), true);
        assert_eq!(orderby.unwrap(), "id");
    }
}

#[test]
fn extractor_orderby_query_with_desc_or_asc() {
    let extractor = Extractor::new();

    let vec_query: Vec<&str> = vec![
        "SELECT * FROM users WHERE id = 5 AND level = 10 ORDER BY id ASC;",
        "SELECT * FROM users ORDER BY id DESC;",
        "SELECT * FROM users ORDER BY id DESC, Nombre ASC;",
    ];

    let expected: Vec<&str> = vec!["id ASC", "id DESC", "id DESC, Nombre ASC"];

    for (i, q) in vec_query.iter().enumerate() {
        let orderby = extractor.extract_orderby_as_str(q).unwrap();
        assert_eq!(orderby, expected[i]);
    }
}

#[test]
fn extractor_parser_orderby() {
    let extractor = Extractor::new();

    let vec_query: Vec<&str> = vec![
        "SELECT * FROM users WHERE id = 5 AND level = 10 ORDER BY id ASC;",
        "SELECT * FROM users ORDER BY id DESC;",
        "SELECT * FROM users ORDER BY id DESC, Nombre ASC;",
    ];

    let expected: Vec<Vec<SortMethod>> = vec![
        vec![SortMethod {
            by_column: "id".to_string(),
            ascending: true,
        }],
        vec![SortMethod {
            by_column: "id".to_string(),
            ascending: false,
        }],
        vec![
            SortMethod {
                by_column: "id".to_string(),
                ascending: false,
            },
            SortMethod {
                by_column: "Nombre".to_string(),
                ascending: true,
            },
        ],
        vec![
            SortMethod {
                by_column: "id".to_string(),
                ascending: true,
            },
            SortMethod {
                by_column: "Nombre".to_string(),
                ascending: false,
            },
        ],
    ];

    for (i, q) in vec_query.iter().enumerate() {
        let orderby = extractor.extract_orderby_as_str(q).unwrap();
        let vec_result = extractor.parser_orderby_from_str_to_vec(&orderby);
        assert_eq!(vec_result, expected[i]);
    }
}

#[test]
fn extractor_extract_positions_of_extracting_table_matches() {
    let extractor = Extractor::new();

    let consults: Vec<&str> = Vec::from([
        "SELECT * FROM users WHERE id = 3;",
        "INSERT INTO users (name, age) VALUES ('John', 20);",
        "UPDATE users SET name = 'John' WHERE id = 3;",
        "DELETE FROM users WHERE id = 3;",
    ]);

    // tuples are in (start, offset, end)
    // Example for the first consult
    // FROM is at position 9, so start is 9
    // FROM has a length of 4, so offset is 4
    // WHERE is at position 20, so end is 20
    let expected: Vec<(usize, usize, usize)> =
        vec![(9, 4, 20), (7, 4, 18), (0, 6, 13), (7, 4, 18)];

    let mut start;
    let mut offset;
    let mut end;
    let i = 0;

    (start, offset, end) = extractor.extract_positions(consults[i], SQLCommand::Select);
    assert_eq!((start, offset, end), expected[i]);

    (start, offset, end) = extractor.extract_positions(consults[i + 1], SQLCommand::Insert);
    assert_eq!((start, offset, end), expected[i + 1]);

    (start, offset, end) = extractor.extract_positions(consults[i + 2], SQLCommand::Update);
    assert_eq!((start, offset, end), expected[i + 2]);

    (start, offset, end) = extractor.extract_positions(consults[i + 3], SQLCommand::Delete);
    assert_eq!((start, offset, end), expected[i + 3]);
}

#[test]
fn extract_table_from_insert_into() {
    let extractor = Extractor::new();

    let consult: &str = "INSERT INTO users (name, age) VALUES ('John', 20);";
    let table = extractor
        .extract_table(consult, SQLCommand::Insert)
        .unwrap();
    assert_eq!(table, "users");
}

#[test]
fn extract_table_from_multiple_consults_matchs() {
    let extractor = Extractor::new();

    let consult_select = "INSERT INTO users (name, age) VALUES ('John', 20);";
    let consult_insert = "SELECT * FROM users WHERE id = 3;";
    let consult_update = "UPDATE users SET name = 'John' WHERE id = 3;";
    let consult_delete = "DELETE FROM users WHERE id = 3;";

    let table_select = extractor
        .extract_table(consult_select, SQLCommand::Insert)
        .unwrap();
    assert_eq!(table_select, "users");

    let table_insert = extractor
        .extract_table(consult_insert, SQLCommand::Select)
        .unwrap();

    assert_eq!(table_insert, "users");

    let table_update = extractor
        .extract_table(consult_update, SQLCommand::Update)
        .unwrap();
    assert_eq!(table_update, "users");

    let table_delete = extractor
        .extract_table(consult_delete, SQLCommand::Delete)
        .unwrap();

    assert_eq!(table_delete, "users");
}

#[test]
fn extractor_extract_columns_and_values_from_insert_into() {
    let extractor = Extractor::new();

    let consult = "INSERT INTO users (name, age) VALUES ('John', 20);";

    let (columns, values) = extractor
        .extract_columns_and_values_for_insert(consult)
        .unwrap();

    assert_eq!(columns, vec!["name".to_string(), "age".to_string()]);
    assert_eq!(values, [["John".to_string(), "20".to_string()]]);
}

#[test]
fn extract_columns_and_values_from_insert_into_with_multiple_values() {
    let extractor = Extractor::new();

    let consult = "INSERT INTO users (name, age) VALUES ('John', 20), ('Lucas', 'Gabriel');";

    let (columns, values) = extractor
        .extract_columns_and_values_for_insert(consult)
        .unwrap();

    assert_eq!(columns, vec!["name".to_string(), "age".to_string()]);
    assert_eq!(
        values,
        [
            ["John".to_string(), "20".to_string()],
            ["Lucas".to_string(), "Gabriel".to_string()]
        ]
    );
}

#[test]
fn extractor_extract_columns_and_values_from_insert_into_doesnt_match_fails() {
    let extractor = Extractor::new();

    let consult = "INSERT INTO users (name, age) VALUES ('John', 20, 30);";

    let result = extractor.extract_columns_and_values_for_insert(consult);
    assert_eq!(result.is_err(), true);
}

#[test]
fn extract_columns_with_unbalanced_parentheses_fails() {
    let extractor = Extractor::new();

    let consult = "INSERT INTO users (name, age) VALUES ('John', 20;";

    let result = extractor.extract_columns_and_values_for_insert(consult);
    assert_eq!(result.is_err(), true);
}

#[test]
fn extract_columns_and_values_number_of_columns_and_values_mismatch_fails() {
    let extractor = Extractor::new();

    let consult = "INSERT INTO users (name, age) VALUES ('John');";

    let result = extractor.extract_columns_and_values_for_insert(consult);
    assert_eq!(result.is_err(), true);
}

#[test]
fn extract_columns_and_values_for_update_matches() {
    let extractor = Extractor::new();

    let consult = "UPDATE users SET name = 'John', age = 20 WHERE id = 3;";

    let (columns, values) = extractor
        .extract_columns_and_values_for_update(consult)
        .unwrap();

    assert_eq!(columns, vec!["name".to_string(), "age".to_string()]);
    assert_eq!(values, vec!["John".to_string(), "20".to_string()]);
}

#[test]
fn extract_columns_and_values_for_insert_with_unbalanced_single_quotes_fails() {
    let extractor = Extractor::new();

    let consult = "INSERT INTO users (name, age) VALUES ('John, 20);";

    let result = extractor.extract_columns_and_values_for_insert(consult);
    assert_eq!(result.is_err(), true);
}

#[test]
fn extract_column_and_values_for_update_with_unbalanced_single_quotes_fails() {
    let extractor = Extractor::new();

    let consult = "UPDATE users SET name = 'John, age = 20 WHERE id = 3;";

    let result = extractor.extract_columns_and_values_for_update(consult);
    assert_eq!(result.is_err(), true);
}

#[test]
fn select_columns_lose_their_quotes() {
    let extractor = Extractor::default();
    let columns = extractor
        .extract_columns_for_select("SELECT 'Correo electronico', \"Edad\" ,Nombre FROM clientes;")
        .unwrap();
    assert_eq!(columns, vec!["Correo electronico", "Edad", "Nombre"]);
    let columns = extractor
        .extract_columns_for_select("SELECT * FROM clientes;")
        .unwrap();
    assert_eq!(columns, vec!["*"]);
}

#[test]
fn select_without_from_is_a_syntax_error() {
    let extractor = Extractor::new();
    let error = extractor
        .extract_columns_for_select("SELECT name, age")
        .unwrap_err();
    assert_eq!(error.kind(), ErrorKind::Syntax);
    let error = extractor.extract_columns_for_select("FROM t;").unwrap_err();
    assert_eq!(error.kind(), ErrorKind::Syntax);
}

#[test]
fn insert_values_keep_commas_inside_quotes() {
    let extractor = Extractor::new();
    let (columns, values) = extractor
        .extract_columns_and_values_for_insert(
            "INSERT INTO t ('a b', c) VALUES ('x, y', 'say \"hi\"' ), ( 1 ,2);",
        )
        .unwrap();
    assert_eq!(columns, vec!["a b", "c"]);
    assert_eq!(values, vec![vec!["x, y", "say \"hi\""], vec!["1", "2"]]);
}

#[test]
fn insert_without_values_is_a_syntax_error() {
    let extractor = Extractor::new();
    for consult in [
        "INSERT INTO t (a, b);",
        "INSERT INTO t VALUES 1, 2;",
        "INSERT INTO t (a, b) VALUES ;",
        ") INSERT INTO t ( VALUES (1);",
    ] {
        let error = extractor
            .extract_columns_and_values_for_insert(consult)
            .unwrap_err();
        assert_eq!(error.kind(), ErrorKind::Syntax, "{}", consult);
    }
}

#[test]
fn update_without_where_reads_up_to_the_last_character() {
    let extractor = Extractor::new();
    let (columns, values) = extractor
        .extract_columns_and_values_for_update("UPDATE t SET a = 1, 'b' = 'two words';")
        .unwrap();
    assert_eq!(columns, vec!["a", "b"]);
    assert_eq!(values, vec!["1", "two words"]);
}

#[test]
fn update_assignments_need_exactly_one_equals_sign() {
    let extractor = Extractor::new();
    for consult in [
        "UPDATE t a = 1;",
        "UPDATE t SET a 1 WHERE b = 2;",
        "UPDATE t SET a = 1 = 2 WHERE b = 2;",
        "UPDATE t WHERE b = 2 SET a = 1;",
    ] {
        let error = extractor
            .extract_columns_and_values_for_update(consult)
            .unwrap_err();
        assert_eq!(error.kind(), ErrorKind::Syntax, "{}", consult);
    }
}

#[test]
fn table_name_needs_key_words() {
    let extractor = Extractor::new();
    let error = extractor
        .extract_table("nothing here", SQLCommand::Select)
        .unwrap_err();
    assert_eq!(error.kind(), ErrorKind::Syntax);
    // the end of the name stands before its start
    let error = extractor
        .extract_table("WHERE a = 1 FROM t;", SQLCommand::Select)
        .unwrap_err();
    assert_eq!(error.kind(), ErrorKind::Syntax);
    assert_eq!(
        extractor
            .extract_table("DELETE FROM  clientes ;", SQLCommand::Delete)
            .unwrap(),
        "clientes"
    );
}

#[test]
fn positions_count_bytes() {
    let extractor = Extractor::new();
    // the letter before FROM takes two bytes
    assert_eq!(
        extractor.extract_positions("  SELECT ñ FROM t;", SQLCommand::Select),
        (10, 4, 16)
    );
    assert_eq!(
        extractor
            .extract_table("  SELECT ñ FROM tabla WHERE ñ = 1;", SQLCommand::Select)
            .unwrap(),
        "tabla"
    );
    assert_eq!(
        extractor.extract_positions("DELETE FROM año WHERE a = 1;", SQLCommand::Delete),
        (7, 4, 17)
    );
    assert_eq!(
        extractor.extract_positions("nothing", SQLCommand::Update),
        (0, 6, 0)
    );
}

#[test]
fn statements_without_a_condition_have_none() {
    let extractor = Extractor::new();
    assert_eq!(extractor.extract_as_str_conditions("SELECT * FROM t;"), None);
    assert_eq!(extractor.extract_as_str_conditions("SELECT * FROM t WHERE a = 1"), None);
    assert_eq!(extractor.extract_as_str_conditions("; WHERE"), None);
    assert_eq!(
        extractor.extract_as_str_conditions("SELECT * FROM t WHERE ;"),
        Some("".to_string())
    );
    assert_eq!(extractor.extract_orderby_as_str("SELECT * FROM t;"), None);
    assert_eq!(extractor.extract_orderby_as_str("SELECT * FROM t ORDER BY a"), None);
    assert_eq!(extractor.extract_orderby_as_str("; ORDER BY a"), None);
}

#[test]
fn sort_keys_read_their_direction() {
    let extractor = Extractor::new();
    let keys = extractor.parser_orderby_from_str_to_vec("a, b DESC ,c ASC,d desc, e DESC x,");
    let expected = [
        ("a", true),
        ("b", false),
        ("c", true),
        ("d", true),
        ("e", true),
        ("", true),
    ];
    assert_eq!(keys.len(), expected.len());
    for (key, (column, ascending)) in keys.iter().zip(expected) {
        assert_eq!(key.get_by_column(), column);
        assert_eq!(key.is_ascending(), ascending);
    }
}
