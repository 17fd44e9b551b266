use tp_individual::errors::tperrors::ErrorKind;
use tp_individual::handler_tables::table::Table;
use tp_individual::sorter::sort::SortMethod;

const CSV_DATA: &str = "Id,Nombre,Apellido,Edad,Correo electronico,Profesion\n\
    1,Juan,Perez,32,jperez@gmail.com,medico\n\
    2,Maria,Gomez,28,mgomez@gmail.com,abogado\n\
    3,Carlos,Sánchez,45,csanchez@gmail.com,ingeniero\n\
    4,Ana,Ruiz,36,aruiz@gmail.com,arquitecta\n\
    5,Luis,Martínez,29,lmartinez@gmail.com,profesor\n\
    6,Laura,Domínguez,41,ldominguez@gmail.com,enfermera\n\
    7,Pedro,Fernández,33,pfernandez@gmail.com,diseñador\n\
    8,Lucía,Ramos,26,lramos@gmail.com,psicóloga\n\
    9,Diego,Navarro,39,dnavarro@gmail.com,empresario\n\
    10,Paula,Hernández,31,phernandez@gmail.com,publicista\n\
    11,Andrés,García,34,andresgarcia@gmail.com,contador y ingeniero\n\
    ";

fn texts(row: &[&str]) -> Vec<String> {
    row.iter().map(|s| s.to_string()).collect()
}

#[test]
fn table_new() {
    let table = Table::mock("database".to_string(), CSV_DATA);
    let filename = table.get_file_name().unwrap();
    assert_eq!(filename, "database");
}

#[test]
fn table_invalid_column() {
    let table = Table::mock("database".to_string(), CSV_DATA);

    // tesis is the invalid columns
    let columns = vec!["Edad".to_string(), "Tesis".to_string()];
    let conditions = Some("WHERE name = 'John'");
    let result = table.resolve_select(columns, conditions, None);
    assert_eq!(result.is_err(), true);
}

#[test]
fn table_invalid_column_when_sorting() {
    let table = Table::mock("database".to_string(), CSV_DATA);

    // tesis is the invalid columns
    let columns = vec!["Nombre".to_string(), "Edad".to_string()];

    let conditions: Option<&str> = None;

    let sorting = Some(vec![SortMethod {
        by_column: "Trabajo Profesional".to_string(),
        ascending: true,
    }]);

    // at t his point, we have this consult.
    // SELECT Nombre, Edad FROM test ORDER BY Trabajo Profesional;
    // so we are trying to sort by a column that does not exist
    let result = table.resolve_select(columns, conditions, sorting);
    assert_eq!(result.is_err(), true);
}

#[test]
fn test_select_returns_ok() {
    let table = Table::mock("database".to_string(), CSV_DATA);

    let columns = vec!["Nombre".to_string(), "Edad".to_string()];
    let result = table.resolve_select(columns, None, None);
    println!("{:?}", result);
    assert_eq!(result.is_ok(), true);
}

#[test]
fn return_select_returns_ok() {
    let table = Table::mock("database".to_string(), CSV_DATA);

    let columns = vec!["Nombre".to_string(), "Edad".to_string()];
    let result = table.resolve_select(columns, None, None);
    assert_eq!(result.is_ok(), true);
}

#[test]
fn return_select_returns_ok_with_conditions() {
    let table = Table::mock("database".to_string(), CSV_DATA);

    let columns = vec!["Nombre".to_string(), "Edad".to_string()];
    let conditions = Some("Nombre = 'Luis' AND Edad = 29");
    let result = table.resolve_select(columns, conditions, None).unwrap();

    let expected_result = vec![
        vec!["Nombre".to_string(), "Edad".to_string()],
        vec!["Luis".to_string(), "29".to_string()],
    ];

    assert_eq!(result, expected_result);
}

#[test]
fn test_select_returns_ok_with_conditions() {
    let table = Table::mock("database".to_string(), CSV_DATA);

    let columns = vec!["Nombre".to_string(), "Edad".to_string()];
    let conditions = Some("Nombre = 'Luis' AND Edad>15");
    let result = table.resolve_select(columns, conditions, None).unwrap();

    let expected_result = vec![
        vec!["Nombre".to_string(), "Edad".to_string()],
        vec!["Luis".to_string(), "29".to_string()],
    ];

    assert_eq!(result, expected_result);
}

#[test]
fn test_select_returns_proper_order_of_requested_columns() {
    // I'm trying to do a SELECT Edad, Nombre FROM table WHERE Edad = 45;
    // Edad = 45 only to get one result.

    let table = Table::mock("database".to_string(), CSV_DATA);
    let columns = vec!["Edad".to_string(), "Nombre".to_string()];
    let conditions = Some("Edad = 45");
    let sorting = None;

    let expected_result = vec![
        vec!["Edad".to_string(), "Nombre".to_string()],
        vec!["45".to_string(), "Carlos".to_string()],
    ];

    let result = table.resolve_select(columns, conditions, sorting).unwrap();

    for (i, line) in result.iter().enumerate() {
        assert_eq!(line, &expected_result[i]);
    }
    assert_eq!(result, expected_result);
}

#[test]
fn test_select_returns_proper_answer_without_passing_the_column_as_query() {
    // I'm trying to do a SELECT Nombre FROM table WHERE Edad = 45;
    // So i'm going to get only Carlos as result.

    let table = Table::mock("database".to_string(), CSV_DATA);
    let columns = vec!["Nombre".to_string()];
    let conditions = Some("Edad = 45");
    let sorting = None;

    let expected_result = vec![vec!["Nombre".to_string()], vec!["Carlos".to_string()]];

    let result = table.resolve_select(columns, conditions, sorting).unwrap();

    for (i, line) in result.iter().enumerate() {
        assert_eq!(line, &expected_result[i]);
    }
    assert_eq!(result, expected_result);
}

#[test]
fn test_select_returns_proper_answer_with_column_with_spaces() {
    // I'm trying to do a SELECT \"Correo electronico\" FROM table WHERE Edad = 45;
    // So i'm going to get only csanchez@gmail.com as result.

    let table = Table::mock("database".to_string(), CSV_DATA);
    let columns = vec!["Correo electronico".to_string()];
    let conditions = Some("Edad = 45");
    let sorting = None;

    let expected_result = vec![
        vec!["Correo electronico".to_string()],
        vec!["csanchez@gmail.com".to_string()],
    ];

    let result = table.resolve_select(columns, conditions, sorting).unwrap();

    for (i, line) in result.iter().enumerate() {
        assert_eq!(line, &expected_result[i]);
    }
    assert_eq!(result, expected_result);
}

#[test]
fn test_select_returns_ok_with_nested_parenthesis_condition() {
    let table = Table::mock("database".to_string(), CSV_DATA);

    let columns = vec!["Nombre".to_string(), "Profesion".to_string()];
    let conditions = Some("(Edad >= 32 AND Edad <= 40) AND (Nombre = Juan OR Nombre = Pedro)");
    let result = table.resolve_select(columns, conditions, None).unwrap();

    let expected_result = vec![
        vec!["Nombre".to_string(), "Profesion".to_string()],
        vec!["Juan".to_string(), "medico".to_string()],
        vec!["Pedro".to_string(), "diseñador".to_string()],
    ];

    for (i, line) in result.iter().enumerate() {
        assert_eq!(line, &expected_result[i]);
    }
    assert_eq!(result, expected_result);
}

#[test]
fn test_select_returns_ok_with_conditions_attached() {
    // We are trying to simulate a
    // SELECT Nombre, Edad FROM clientes WHERE Edad>=45 AND Edad<=43;
    let table = Table::mock("database".to_string(), CSV_DATA);

    let columns = vec!["Nombre".to_string(), "Edad".to_string()]; // SELECT ALL
    let conditions = Some("Edad>=41 AND Edad<=43");
    let result = table.resolve_select(columns, conditions, None).unwrap();

    let expected_result = vec![
        vec!["Nombre".to_string(), "Edad".to_string()],
        vec!["Laura".to_string(), "41".to_string()],
    ];

    for (i, line) in result.iter().enumerate() {
        assert_eq!(line, &expected_result[i]);
    }
    assert_eq!(result, expected_result);
}

#[test]
fn test_select_returns_ok_with_conditions_attached_desbalanced() {
    // We are trying to simulate a
    // SELECT Nombre, Edad FROM clientes WHERE Edad>=45 AND Edad <= 43;
    // conditions are desbalanced and separated, it should work anyway
    let table = Table::mock("database".to_string(), CSV_DATA);

    let columns = vec!["Nombre".to_string(), "Edad".to_string()]; // SELECT ALL
    let conditions = Some("Edad>=41 AND Edad <= 43");
    let result = table.resolve_select(columns, conditions, None).unwrap();

    let expected_result = vec![
        vec!["Nombre".to_string(), "Edad".to_string()],
        vec!["Laura".to_string(), "41".to_string()],
    ];

    for (i, line) in result.iter().enumerate() {
        assert_eq!(line, &expected_result[i]);
    }
    assert_eq!(result, expected_result);
}

#[test]
fn test_select_general_column_sorting_without_a_column_presents_in_the_query_returns_ok() {
    // We are trying to simulate a
    // SELECT * FROM clientes ORDER BY nombre ASC;
    // So we're trying to sort by a column that is not present in the query.
    let table = Table::mock("database".to_string(), CSV_DATA);

    let column = vec!["*".to_string()];

    let ordering = Some(vec![SortMethod {
        by_column: "Nombre".to_string(),
        ascending: true,
    }]);

    let result = table.resolve_select(column, None, ordering);

    assert_eq!(result.is_ok(), true);
}

#[test]
fn test_select_certain_column_not_present_in_query_and_sort_with_other_returns_ok() {
    // Trying to do
    // SELECT apellido FROM clientes ORDER BY nombre DESC;
    let table = Table::mock("database".to_string(), CSV_DATA);

    let column = vec!["Apellido".to_string()];
    let ordering = Some(vec![SortMethod {
        by_column: "Nombre".to_string(),
        ascending: false,
    }]);

    let result = table.resolve_select(column, None, ordering);
    assert_eq!(result.is_ok(), true);
}

#[test]
fn test_select_without_finishing_condition_operator_throws_err() {
    // We are trying to simulate a
    // SELECT * FROM clientes WHERE Edad = 45 AND;
    // So we are trying to finish the condition with an operator.
    let table = Table::mock("database".to_string(), CSV_DATA);

    let column = vec!["*".to_string()];
    let conditions = Some("Edad=45 AND");
    let result = table.resolve_select(column, conditions, None);

    assert_eq!(result.is_err(), true);
}

#[test]
fn test_select_with_values_as_scaped_value_returns_ok() {
    // We are trying to simulate a
    // SELECT * FROM clientes WHERE Profesion = 'contador + ingeniero';
    // So we are trying to scape the value of the condition.
    let table = Table::mock("database".to_string(), CSV_DATA);

    let column = vec!["Nombre".to_string(), "Edad".to_string()];
    let conditions = Some("Profesion='contador y ingeniero'");
    let result = table.resolve_select(column, conditions, None).unwrap();

    let expected_result = vec![
        vec!["Nombre".to_string(), "Edad".to_string()],
        vec!["Andrés".to_string(), "34".to_string()],
    ];

    for (i, line) in result.iter().enumerate() {
        assert_eq!(line, &expected_result[i]);
    }
    assert_eq!(result, expected_result);
}

const PEOPLE: &str = "Id,Nombre,Ciudad,Edad\n\
    1,Ana,Cali,30\n\
    2,Beto,Lima,25\n\
    3,Ana,Lima,41\n\
    4,Caro,Cali,25\n\
    5,Beto,Cali,30\n";

#[test]
fn select_sorts_by_the_first_key_before_the_second() {
    let table = Table::mock("people".to_string(), PEOPLE);
    let sorting = Some(vec![
        SortMethod {
            by_column: "Nombre".to_string(),
            ascending: true,
        },
        SortMethod {
            by_column: "Edad".to_string(),
            ascending: false,
        },
    ]);
    let result = table
        .resolve_select(vec!["Id".to_string(), "Nombre".to_string()], None, sorting)
        .unwrap();
    let expected = vec![
        texts(&["Id", "Nombre"]),
        texts(&["3", "Ana"]),
        texts(&["1", "Ana"]),
        texts(&["5", "Beto"]),
        texts(&["2", "Beto"]),
        texts(&["4", "Caro"]),
    ];
    assert_eq!(result, expected);
}

#[test]
fn select_keeps_the_order_of_rows_that_tie() {
    let table = Table::mock("people".to_string(), PEOPLE);
    let sorting = Some(vec![SortMethod {
        by_column: "Ciudad".to_string(),
        ascending: false,
    }]);
    let result = table
        .resolve_select(vec!["Id".to_string()], None, sorting)
        .unwrap();
    let expected = vec![
        texts(&["Id"]),
        texts(&["2"]),
        texts(&["3"]),
        texts(&["1"]),
        texts(&["4"]),
        texts(&["5"]),
    ];
    assert_eq!(result, expected);
}

#[test]
fn select_sorts_by_text_not_by_number() {
    let table = Table::mock("t".to_string(), "n\n10\n9\n100\n");
    let sorting = Some(vec![SortMethod {
        by_column: "n".to_string(),
        ascending: true,
    }]);
    let result = table
        .resolve_select(vec!["n".to_string()], None, sorting)
        .unwrap();
    assert_eq!(
        result,
        vec![texts(&["n"]), texts(&["10"]), texts(&["100"]), texts(&["9"])]
    );
}

#[test]
fn select_star_gives_every_column_in_header_order() {
    let table = Table::mock("people".to_string(), PEOPLE);
    let result = table
        .resolve_select(vec!["*".to_string()], Some("Edad > 40"), None)
        .unwrap();
    assert_eq!(
        result,
        vec![
            texts(&["Id", "Nombre", "Ciudad", "Edad"]),
            texts(&["3", "Ana", "Lima", "41"]),
        ]
    );
}

#[test]
fn select_errors_have_their_kinds() {
    let table = Table::mock("people".to_string(), PEOPLE);
    let unknown_column = table
        .resolve_select(vec!["Tesis".to_string()], None, None)
        .unwrap_err();
    assert_eq!(unknown_column.kind(), ErrorKind::Column);

    let unknown_key = table
        .resolve_select(
            vec!["Id".to_string()],
            None,
            Some(vec![SortMethod {
                by_column: "Tesis".to_string(),
                ascending: true,
            }]),
        )
        .unwrap_err();
    assert_eq!(unknown_key.kind(), ErrorKind::Column);

    let bad_condition = table
        .resolve_select(vec!["Id".to_string()], Some("(Edad > 3"), None)
        .unwrap_err();
    assert_eq!(bad_condition.kind(), ErrorKind::Generic);
    assert_eq!(bad_condition.to_string(), "ERROR: SYNTAX_ERROR: near ';'");

    let empty = Table::mock("empty".to_string(), "");
    let no_header = empty
        .resolve_select(vec!["*".to_string()], None, None)
        .unwrap_err();
    assert_eq!(no_header.kind(), ErrorKind::Column);

    let short = Table::mock("short".to_string(), "a,b\n1,2\n3\n");
    let short_row = short
        .resolve_select(vec!["b".to_string()], None, None)
        .unwrap_err();
    assert_eq!(short_row.kind(), ErrorKind::Generic);
    let short_row = short
        .resolve_select(vec!["*".to_string()], None, None)
        .unwrap_err();
    assert_eq!(short_row.kind(), ErrorKind::Generic);
    let short_row = short
        .resolve_select(vec!["a".to_string()], Some("a = 3"), None)
        .unwrap_err();
    assert_eq!(short_row.kind(), ErrorKind::Generic);
}

#[test]
fn select_takes_short_rows_that_hold_what_is_asked() {
    let short = Table::mock("short".to_string(), "a,b\n1,2\n3\n");
    let result = short
        .resolve_select(vec!["a".to_string()], None, None)
        .unwrap();
    assert_eq!(result, vec![texts(&["a"]), texts(&["1"]), texts(&["3"])]);

    let by_a = Some(vec![SortMethod {
        by_column: "a".to_string(),
        ascending: false,
    }]);
    let result = short
        .resolve_select(vec!["a".to_string()], None, by_a)
        .unwrap();
    assert_eq!(result, vec![texts(&["a"]), texts(&["3"]), texts(&["1"])]);

    // two rows to sort, one of them without the key's column
    let by_b = Some(vec![SortMethod {
        by_column: "b".to_string(),
        ascending: true,
    }]);
    let error = short
        .resolve_select(vec!["a".to_string()], None, by_b)
        .unwrap_err();
    assert_eq!(error.kind(), ErrorKind::Generic);

    // one row alone is not compared with any other
    let single = Table::mock("single".to_string(), "a,b\n3\n");
    let by_b = Some(vec![SortMethod {
        by_column: "b".to_string(),
        ascending: true,
    }]);
    let result = single
        .resolve_select(vec!["a".to_string()], None, by_b)
        .unwrap();
    assert_eq!(result, vec![texts(&["a"]), texts(&["3"])]);

    // a row with more fields than the header gives those under the header
    let long = Table::mock("long".to_string(), "a,b\n1,2,3\n");
    let result = long
        .resolve_select(vec!["*".to_string()], None, None)
        .unwrap();
    assert_eq!(result, vec![texts(&["a", "b"]), texts(&["1", "2"])]);
}

#[test]
fn update_without_a_condition_takes_short_rows_that_hold_what_is_set() {
    let table = Table::mock("t".to_string(), "A,B,C\n1,2\n4,5,6\n7,8,9,10\n");
    let lines = table
        .resolve_update(texts(&["A"]), texts(&["9"]), None)
        .unwrap();
    assert_eq!(lines, vec!["A,B,C", "9,2", "9,5,6", "9,8,9,10"]);

    // the first row has no field under C
    let error = table
        .resolve_update(texts(&["C"]), texts(&["9"]), None)
        .unwrap_err();
    assert_eq!(error.kind(), ErrorKind::Generic);

    // with a condition every row must have a field for every column
    let error = table
        .resolve_update(texts(&["A"]), texts(&["9"]), Some("A = 4"))
        .unwrap_err();
    assert_eq!(error.kind(), ErrorKind::Generic);
}

#[test]
fn lines_end_at_line_feeds() {
    let table = Table::mock("t".to_string(), "a,b\r\n1,2\r\n3,4");
    let result = table
        .resolve_select(vec!["b".to_string(), "a".to_string()], None, None)
        .unwrap();
    assert_eq!(
        result,
        vec![texts(&["b", "a"]), texts(&["2", "1"]), texts(&["4", "3"])]
    );
}

#[test]
fn insert_places_values_by_column_name() {
    let table = Table::mock("people".to_string(), PEOPLE);
    let rows = table
        .resolve_insert(
            vec!["Edad".to_string(), "Nombre".to_string()],
            vec![texts(&["50", "Dora"]), texts(&["60", "Elio"])],
        )
        .unwrap();
    assert_eq!(
        rows,
        vec![texts(&["", "Dora", "", "50"]), texts(&["", "Elio", "", "60"])]
    );
}

#[test]
fn insert_with_an_unknown_column_takes_values_in_header_order() {
    let table = Table::mock("people".to_string(), PEOPLE);
    let rows = table
        .resolve_insert(texts(&["1", "x", "y", "2"]), vec![texts(&["1", "x", "y", "2"])])
        .unwrap();
    assert_eq!(rows, vec![texts(&["1", "x", "y", "2"])]);

    let error = table
        .resolve_insert(texts(&["Nombre", "Tesis"]), vec![texts(&["a", "b"])])
        .unwrap_err();
    assert_eq!(error.kind(), ErrorKind::Column);
}

#[test]
fn insert_rejects_repeated_columns_and_short_rows() {
    let table = Table::mock("people".to_string(), PEOPLE);
    let error = table
        .resolve_insert(texts(&["Nombre", "Nombre"]), vec![texts(&["a", "b"])])
        .unwrap_err();
    assert_eq!(error.kind(), ErrorKind::Column);

    let error = table
        .resolve_insert(texts(&["Nombre", "Edad"]), vec![texts(&["a"])])
        .unwrap_err();
    assert_eq!(error.kind(), ErrorKind::Generic);

    let empty = Table::mock("empty".to_string(), "");
    let error = empty.resolve_insert(vec![], vec![]).unwrap_err();
    assert_eq!(error.kind(), ErrorKind::Column);
}

#[test]
fn update_pairs_each_column_with_its_value() {
    let table = Table::mock("people".to_string(), PEOPLE);
    let lines = table
        .resolve_update(texts(&["Edad", "Nombre"]), texts(&["99", "Zoe"]), Some("Ciudad = Lima"))
        .unwrap();
    assert_eq!(
        lines,
        vec![
            "Id,Nombre,Ciudad,Edad",
            "1,Ana,Cali,30",
            "2,Zoe,Lima,99",
            "3,Zoe,Lima,99",
            "4,Caro,Cali,25",
            "5,Beto,Cali,30",
        ]
    );
}

#[test]
fn update_ignores_unknown_columns_and_reports_failures() {
    let table = Table::mock("people".to_string(), PEOPLE);
    let lines = table
        .resolve_update(texts(&["Tesis"]), texts(&["x"]), None)
        .unwrap();
    assert_eq!(lines.len(), 6);
    assert_eq!(lines[1], "1,Ana,Cali,30");

    let error = table
        .resolve_update(texts(&["Edad", "Nombre"]), texts(&["1"]), None)
        .unwrap_err();
    assert_eq!(error.kind(), ErrorKind::Generic);

    let error = table
        .resolve_update(texts(&["Edad"]), texts(&["1"]), Some("Tesis = 3"))
        .unwrap_err();
    assert_eq!(error.kind(), ErrorKind::Generic);

    let empty = Table::mock("empty".to_string(), "");
    let error = empty.resolve_update(vec![], vec![], None).unwrap_err();
    assert_eq!(error.kind(), ErrorKind::Column);
}

#[test]
fn delete_without_a_condition_leaves_the_header() {
    let table = Table::mock("people".to_string(), PEOPLE);
    assert_eq!(table.resolve_delete(None).unwrap(), vec!["Id,Nombre,Ciudad,Edad"]);
}

#[test]
fn delete_with_a_condition_that_never_holds_leaves_every_row() {
    let table = Table::mock("people".to_string(), PEOPLE);
    let lines = table.resolve_delete(Some("1 = 2")).unwrap();
    assert_eq!(
        lines,
        vec![
            "Id,Nombre,Ciudad,Edad",
            "1,Ana,Cali,30",
            "2,Beto,Lima,25",
            "3,Ana,Lima,41",
            "4,Caro,Cali,25",
            "5,Beto,Cali,30",
        ]
    );
}

#[test]
fn delete_fails_where_the_condition_does() {
    let table = Table::mock("people".to_string(), PEOPLE);
    let error = table.resolve_delete(Some("Edad > 3 AND")).unwrap_err();
    assert_eq!(error.kind(), ErrorKind::Generic);
    let empty = Table::mock("empty".to_string(), "");
    assert_eq!(empty.resolve_delete(None).unwrap_err().kind(), ErrorKind::Column);
}

#[test]
fn the_file_name_is_the_last_segment_without_its_extension() {
    let table = Table::mock("./path/to/clientes.csv".to_string(), "");
    assert_eq!(table.get_file_name().unwrap(), "clientes");
    assert_eq!(table.get_file_directory(), "./path/to/clientes.csv");
    assert_eq!(table.get_directory_where_file_is(), "./path/to");
    let table = Table::mock("clientes.csv".to_string(), "");
    assert_eq!(table.get_file_name().unwrap(), "clientes");
    assert_eq!(table.get_directory_where_file_is(), ".");
    let table = Table::mock("/clientes.tar.gz".to_string(), "");
    assert_eq!(table.get_file_name().unwrap(), "clientes");
    assert_eq!(table.get_directory_where_file_is(), ".");
}

#[test]
fn the_temporal_file_stands_beside_the_table() {
    let table = Table::mock("./tables/clientes.csv".to_string(), "");
    assert_eq!(
        table.generate_temporal_file_path(1700000000123456),
        "./tables/temporal_file_1700000000123456.csv"
    );
    assert_eq!(
        Table::mock("t.csv".to_string(), "").generate_temporal_file_path(0),
        "./temporal_file_0.csv"
    );
}

#[test]
fn bracketed_groups_are_evaluated_before_they_are_joined() {
    let table = Table::mock(
        "people".to_string(),
        "Nombre,Edad,Profesion\nJuan,32,medico\nPedro,33,diseñador\nCarlos,45,ingeniero\n",
    );
    let result = table
        .resolve_select(
            vec!["Nombre".to_string()],
            Some("(Edad>=32 AND Edad<=40) AND (Nombre=Juan OR Nombre=Pedro)"),
            None,
        )
        .unwrap();
    assert_eq!(
        result,
        vec![texts(&["Nombre"]), texts(&["Juan"]), texts(&["Pedro"])]
    );
    // without the brackets the joining words apply from left to right
    let result = table
        .resolve_select(
            vec!["Nombre".to_string()],
            Some("Nombre=Carlos OR Nombre=Juan AND Edad>40"),
            None,
        )
        .unwrap();
    assert_eq!(result, vec![texts(&["Nombre"]), texts(&["Carlos"])]);
    let result = table
        .resolve_select(
            vec!["Nombre".to_string()],
            Some("Nombre=Carlos OR (Nombre=Juan AND Edad>40)"),
            None,
        )
        .unwrap();
    assert_eq!(result, vec![texts(&["Nombre"]), texts(&["Carlos"])]);
    let result = table
        .resolve_select(
            vec!["Nombre".to_string()],
            Some("Nombre=Juan OR (Nombre=Carlos AND Edad>40)"),
            None,
        )
        .unwrap();
    assert_eq!(
        result,
        vec![texts(&["Nombre"]), texts(&["Juan"]), texts(&["Carlos"])]
    );
}
