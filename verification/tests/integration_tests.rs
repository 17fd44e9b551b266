use tp_individual::consults::delete::Delete;
use tp_individual::consults::insert::Insert;
use tp_individual::consults::select::Select;
use tp_individual::consults::update::Update;
use tp_individual::errors::tperrors::Tperrors;
use tp_individual::handler_tables::table::Table;

const CSV_DATA: &str = "Id,Nombre,Apellido,Edad,Correo electronico,Profesion\n\
1,Juan,Perez,32,jperez@gmail.com,medico\n\
2,Maria,Gomez,28,mgomez@gmail.com,abogado\n\
3,Carlos,Sánchez,45,csanchez@gmail.com,ingeniero\n\
4,Ana,Ruiz,36,aruiz@gmail.com,arquitecta\n\
5,Luis,Martínez,29,lmartinez@gmail.com,profesor\n\
6,Laura,Domínguez,41,ldominguez@gmail.com,enfermera\n\
7,Pedro,Fernández,33,pfernandez@gmail.com,diseñador\n\
8,Lucía,Ramos,26,lramos@gmail.com,psicóloga\n\
9,Diego,Navarro,39,dnavarro@gmail.com,empresario\n\
10,Paula,Hernández,31,phernandez@gmail.com,publicista\n\
";

fn return_iterator_from_mock_csv_file() -> impl Iterator<Item = String> {
    CSV_DATA
        .as_bytes()
        .split(|byte| *byte == b'\n')
        .map(|line| String::from_utf8(line.to_vec()).unwrap())
}

#[test]
fn integration_delete_paula_from_database() -> Result<(), Tperrors> {
    // paula is the last entry on our mock file.
    let file_name = String::from("delete_query_deletion_paula");
    let delete = Delete;
    let mut table = Table::mock(file_name, CSV_DATA);
    let condition = Some("Nombre=Paula");

    match delete.execute_delete_mock(&mut table, condition) {
        Ok(mocked_file) => {
            let last_line = mocked_file.last().unwrap();

            let expected_output = "9,Diego,Navarro,39,dnavarro@gmail.com,empresario";

            assert_eq!(last_line, expected_output);
            assert_eq!(mocked_file.len(), 10);
        }
        Err(e) => {
            return Err(e);
        }
    }

    Ok(())
}

#[test]
fn integration_delete_whole_database_query() -> Result<(), Tperrors> {
    let file_name = String::from("query_delete_whole_database");
    let delete = Delete;
    let mut table = Table::mock(file_name, CSV_DATA);

    let condition = None;

    match delete.execute_delete_mock(&mut table, condition) {
        Ok(mocked_file) => {
            let expected_output = "Id,Nombre,Apellido,Edad,Correo electronico,Profesion";

            for line in mocked_file.iter() {
                // we do this to read the whole file and find the matches, if any.
                assert_eq!(line, expected_output);
            }
            assert_eq!(mocked_file.len(), 1);
        }
        Err(e) => return Err(e),
    }

    Ok(())
}

#[test]
fn integration_delete_expanded_query_with_column_as_condition() -> Result<(), Tperrors> {
    // We are gonna try to simulate a
    // DELETE FROM clientes WHERE (Id>=2 AND Edad>=30 AND 1=1);"
    // this is gonna return rows with id 1,2, 5, 8 according sandboxSQL.

    let file_name = String::from("delete_expanded_query_with_column_as_condition");
    let delete = Delete;
    let mut table = Table::mock(file_name, CSV_DATA);
    let condition = Some("Id>=2 AND Edad>=30 AND 1=1");

    match delete.execute_delete_mock(&mut table, condition) {
        Ok(mocked_file) => {
            let expected_output_vectors = vec![
                "Id,Nombre,Apellido,Edad,Correo electronico,Profesion", // ofc we are gonna have the header.
                "1,Juan,Perez,32,jperez@gmail.com,medico",
                "2,Maria,Gomez,28,mgomez@gmail.com,abogado",
                "5,Luis,Martínez,29,lmartinez@gmail.com,profesor",
                "8,Lucía,Ramos,26,lramos@gmail.com,psicóloga",
            ];

            for (i, line) in mocked_file.iter().enumerate() {
                assert_eq!(line, expected_output_vectors[i]);
            }
            assert_eq!(mocked_file.len(), expected_output_vectors.len());
        }
        Err(e) => return Err(e),
    }
    Ok(())
}

#[test]
fn integration_insert_query_without_all_columns_used() -> Result<(), Tperrors> {
    let file_name = "insert_query_without_all_columns".to_string();
    let insert = Insert;
    let mut table = Table::mock(file_name, CSV_DATA);
    let columns_to_insert = vec!["Nombre".to_string(), "Edad".to_string()];
    // lets create a vector of values to insert
    let values_to_insert = vec![vec!["Juan".to_string(), "20".to_string()]];

    match insert.execute_insert_mock(&mut table, columns_to_insert, values_to_insert) {
        Ok(vec_lines) => {
            let expected_output = ",Juan,,20,,"; // other commands are NULL.
            assert_eq!(vec_lines.len(), 1); // vector of lines should be 1 because we are adding only a value

            for line in vec_lines {
                // for one line
                assert_eq!(line.join(","), expected_output); // join ',' and make the match.
            }
        }
        Err(e) => {
            return Err(e);
        }
    }

    Ok(())
}

#[test]
fn integration_insert_query_with_all_columns_used() -> Result<(), Tperrors> {
    let file_name = "insert_query_with_all_columns".to_string();
    let insert = Insert;
    let mut table = Table::mock(file_name, CSV_DATA);
    let columns_to_insert = vec![
        "Id".to_string(),
        "Nombre".to_string(),
        "Apellido".to_string(),
        "Edad".to_string(),
        "Correo electronico".to_string(),
        "Profesion".to_string(),
    ];
    let values_to_insert = vec![vec![
        "99".to_string(),
        "Juan".to_string(),
        "Carolo".to_string(),
        "22".to_string(),
        "test@gmail.com".to_string(),
        "maestro".to_string(),
    ]];

    match insert.execute_insert_mock(&mut table, columns_to_insert, values_to_insert) {
        Ok(vec_lines) => {
            let expected_output = "99,Juan,Carolo,22,test@gmail.com,maestro".to_string();

            assert_eq!(vec_lines.len(), 1); // vector of lines should be 1 because we are adding only one value

            for line in vec_lines {
                assert_eq!(line.join(","), expected_output); // join ',' and make the match.
            }
        }
        Err(e) => {
            return Err(e);
        }
    }
    Ok(())
}

#[test]
fn integration_insert_query_with_limited_columns_and_multiple_values() -> Result<(), Tperrors> {
    let file_name = "insert_query_with_limited_columns".to_string();
    let insert = Insert;
    let mut table = Table::mock(file_name, CSV_DATA);
    let columns_to_insert = vec!["Nombre".to_string(), "Edad".to_string()];
    let values_to_insert = vec![
        vec!["Juan".to_string(), "20".to_string()],
        vec!["Pedro".to_string(), "30".to_string()],
        vec!["Maria".to_string(), "40".to_string()],
    ];

    match insert.execute_insert_mock(&mut table, columns_to_insert, values_to_insert) {
        Ok(vec_lines) => {
            let expected_output = vec![",Juan,,20,,", ",Pedro,,30,,", ",Maria,,40,,"];

            assert_eq!(vec_lines.len(), 3); // vector of lines should be 3 because we are adding 3 values

            for (index, line) in vec_lines.iter().enumerate() {
                assert_eq!(line.join(","), expected_output[index]); // join ',' and make the match.
            }
        }
        Err(e) => {
            return Err(e);
        }
    }
    Ok(())
}

#[test]
fn integration_insert_query_with_all_columns_and_multiple_values() -> Result<(), Tperrors> {
    let file_name = "insert_query_with_all_columns".to_string();
    let insert = Insert;
    let mut table = Table::mock(file_name, CSV_DATA);
    let columns_to_insert = vec![
        "Id".to_string(),
        "Nombre".to_string(),
        "Apellido".to_string(),
        "Edad".to_string(),
        "Correo electronico".to_string(),
        "Profesion".to_string(),
    ];
    let values_to_insert = vec![
        vec![
            "99".to_string(),
            "Juan".to_string(),
            "Carolo".to_string(),
            "22".to_string(),
            "test@gmail.com".to_string(),
            "maestro".to_string(),
        ],
        vec![
            "100".to_string(),
            "Pedro".to_string(),
            "Perez".to_string(),
            "30".to_string(),
            "test@gmail.com".to_string(),
            "electronico".to_string(),
        ],
    ];

    match insert.execute_insert_mock(&mut table, columns_to_insert, values_to_insert) {
        Ok(vec_lines) => {
            let vec_expected_string_output = vec![
                "99,Juan,Carolo,22,test@gmail.com,maestro",
                "100,Pedro,Perez,30,test@gmail.com,electronico",
            ];

            assert_eq!(vec_lines.len(), 2); // vector of lines should be 2 because we are adding 2 values

            for (i, line) in vec_lines.iter().enumerate() {
                assert_eq!(line.join(","), vec_expected_string_output[i]); // join ',' and make the match with the [i] output
            }
        }
        Err(e) => {
            return Err(e);
        }
    }
    Ok(())
}

#[test]
fn integration_select_integration_simple_select_query() -> Result<(), Tperrors> {
    let file_name = String::from("query_select_simple_query");
    let select = Select;
    let mut table = Table::mock(file_name, CSV_DATA);

    let columns: Vec<String> = Vec::from(vec!["Nombre".to_string(), "Edad".to_string()]);

    let condition = Some("Edad >=33");
    let sort_method = None;

    match select.execute_select_mock(&mut table, columns, condition, sort_method) {
        Ok(vector_of_lines) => {
            let expected_output: Vec<Vec<&str>> = vec![
                vec!["Nombre", "Edad"],
                vec!["Carlos", "45"],
                vec!["Ana", "36"],
                vec!["Laura", "41"],
                vec!["Pedro", "33"],
                vec!["Diego", "39"],
            ];

            for (i, row) in vector_of_lines.iter().enumerate() {
                let expected_row = &expected_output[i];

                for (j, cell) in row.iter().enumerate() {
                    assert_eq!(cell, &expected_row[j]);
                }
            }
            assert_eq!(vector_of_lines, expected_output);
        }
        Err(e) => {
            return Err(e);
        }
    }
    Ok(())
}

#[test]
fn integration_select_integration_advanced_select_query() -> Result<(), Tperrors> {
    // "SELECT Nombre, Edad FROM database WHERE (Nombre = Luis OR Edad > 15) AND NOT Nombre = Paula;\"

    let file_name = String::from("query_select_advanced_query");
    let select = Select;
    let mut table = Table::mock(file_name, CSV_DATA);

    let columns: Vec<String> = Vec::from(vec!["Nombre".to_string(), "Edad".to_string()]);

    let condition = Some("(Nombre = Luis OR Edad>15) AND NOT Nombre = Paula");
    let sort_method = None;

    match select.execute_select_mock(&mut table, columns, condition, sort_method) {
        Ok(vector_of_lines) => {
            let expected_output = vec![
                vec!["Nombre", "Edad"],
                vec!["Juan", "32"],
                vec!["Maria", "28"],
                vec!["Carlos", "45"],
                vec!["Ana", "36"],
                vec!["Luis", "29"],
                vec!["Laura", "41"],
                vec!["Pedro", "33"],
                vec!["Lucía", "26"],
                vec!["Diego", "39"],
            ];

            for (i, row) in vector_of_lines.iter().enumerate() {
                let expected_row = &expected_output[i];

                for (j, cell) in row.iter().enumerate() {
                    assert_eq!(cell, &expected_row[j]);
                }
            }
            assert_eq!(vector_of_lines, expected_output);
        }
        Err(e) => {
            return Err(e);
        }
    }
    Ok(())
}

#[test]
fn integration_advanced_test_constant() -> Result<(), Tperrors> {
    // \"SELECT * FROM database WHERE 1=1;\"

    let file_name = String::from("query_select_advanced_test_constant");
    let select = Select;
    let mut table = Table::mock(file_name, CSV_DATA);

    let columns: Vec<String> = Vec::from(vec!["*".to_string()]);

    let condition = Some("1=1");
    let sort_method = None;

    match select.execute_select_mock(&mut table, columns, condition, sort_method) {
        Ok(vector_of_lines) => {
            for (vec_output, line_from_csv_mock) in vector_of_lines
                .iter()
                .zip(return_iterator_from_mock_csv_file())
            {
                let line_output = vec_output.join(",");
                assert_eq!(line_output, line_from_csv_mock);
            }
            assert_eq!(vector_of_lines.len(), 11);
        }
        Err(e) => {
            return Err(e);
        }
    }
    Ok(())
}

#[test]
fn integration_advanced_select_query_with_columns_from_table_as_conditions() -> Result<(), Tperrors>
{
    // \"SELECT * FROM database WHERE Id>Edad;\"

    let file_name =
        String::from("query_select_advanced_query_with_columns_from_table_as_conditions");
    let select = Select;
    let mut table = Table::mock(file_name, CSV_DATA);

    let columns: Vec<String> = Vec::from(vec!["*".to_string()]);

    let condition = Some("Id>Edad");
    let sort_method = None;

    match select.execute_select_mock(&mut table, columns, condition, sort_method) {
        Ok(vector_of_lines) => {
            // Making a SELECT * FROM database WHERE Id>Edad; should return only the headers
            let expected_header_as_vec = [
                "Id",
                "Nombre",
                "Apellido",
                "Edad",
                "Correo electronico",
                "Profesion",
            ];

            for (_i, row) in vector_of_lines.iter().enumerate() {
                let expected_row = &expected_header_as_vec;

                for (j, cell) in row.iter().enumerate() {
                    assert_eq!(cell, &expected_row[j]);
                }
            }
            assert_eq!(vector_of_lines.len(), 1);
        }
        Err(e) => {
            return Err(e);
        }
    }
    Ok(())
}

#[test]
fn integration_select_advanced_query_with_nested_conditions_and_spaced_conditions(
) -> Result<(), Tperrors> {
    // \"SELECT * FROM database WHERE Edad <30 AND (Nombre!= 'Luis' AND Nombre !='Maria');\"

    let file_name =
        String::from("query_select_advanced_query_with_nested_conditions_and_spaced_conditions");
    let select = Select;
    let mut table = Table::mock(file_name, CSV_DATA);

    let columns: Vec<String> = Vec::from(vec!["*".to_string()]);

    // Check out i'm mixingg attached conditions with spaced conditions and it still works.

    let condition = Some("Edad<30 AND (Nombre != 'Luis' AND Nombre !='Maria')");
    let sort_method = None;

    match select.execute_select_mock(&mut table, columns, condition, sort_method) {
        Ok(vector_of_lines) => {
            // we need to match 8,Lucía,Ramos,26,lramos@gmail.com,psicóloga
            const INDEX_HEADER: usize = 0;
            const INDEX_ROW_LUCIA: usize = 8;
            let expected_results: Vec<String> = vec![
                return_iterator_from_mock_csv_file()
                    .nth(INDEX_HEADER)
                    .unwrap(),
                return_iterator_from_mock_csv_file()
                    .nth(INDEX_ROW_LUCIA)
                    .unwrap(),
            ];

            for (vec_output, line_from_csv_mock) in
                vector_of_lines.iter().zip(expected_results.iter())
            {
                let line_output = vec_output.join(",");
                assert_eq!(line_output, line_from_csv_mock.to_string());
            }
            assert_eq!(vector_of_lines.len(), 2);
        }
        Err(e) => {
            return Err(e);
        }
    }

    Ok(())
}

#[test]
fn integration_update_simple_query() -> Result<(), Tperrors> {
    let file_name = String::from("query_update_simple_query");
    let update = Update;
    let mut table = Table::mock(file_name, CSV_DATA);

    let columns: Vec<String> = Vec::from(vec!["Nombre".to_string(), "Edad".to_string()]);
    let values: Vec<String> = Vec::from(vec!["TEST".to_string(), "45".to_string()]);

    let condition = Some("Edad =31");

    // this will replace the last entry of the mocked file
    match update.execute_update_mock(&mut table, columns, values, condition) {
        Ok(lines) => {
            let last_line = lines.last().unwrap();
            let expected_output = "10,TEST,Hernández,45,phernandez@gmail.com,publicista";
            assert_eq!(last_line, expected_output);
        }
        Err(e) => {
            return Err(e);
        }
    }
    Ok(())
}

#[test]
fn integration_update_all_values_query() -> Result<(), Tperrors> {
    let file_name = String::from("query_update_all_values_query");
    let update = Update;
    let mut table = Table::mock(file_name, CSV_DATA);

    let columns: Vec<String> = Vec::from(vec!["Nombre".to_string(), "Edad".to_string()]);
    let values: Vec<String> = Vec::from(vec!["TEST".to_string(), "45".to_string()]);

    let condition = None;

    // this will replace all entry of the mocked file :D
    match update.execute_update_mock(&mut table, columns, values, condition) {
        Ok(lines) => {
            // headers should match at start, so now we will check the next lines
            const INDEX_COLUMN_NAME: usize = 1;
            const INDEX_COLUMN_AGE: usize = 3;
            assert_eq!(lines.len(), 11);
            for line in lines.iter().skip(1) {
                let columns = line.split(",").collect::<Vec<&str>>();
                assert_eq!(columns[INDEX_COLUMN_NAME], "TEST");
                assert_eq!(columns[INDEX_COLUMN_AGE], "45");
            }
        }
        Err(e) => {
            return Err(e);
        }
    }
    Ok(())
}

#[test]
fn select_prints_rows_with_commas() {
    let table = Table::mock("database".to_string(), CSV_DATA);
    let printed = Select
        .execute_select(
            &table,
            vec!["Edad".to_string(), "Nombre".to_string()],
            Some("Id < 3"),
            None,
        )
        .unwrap();
    assert_eq!(printed, vec!["Edad,Nombre", "32,Juan", "28,Maria"]);
}

#[test]
fn insert_gives_the_lines_to_add() {
    let table = Table::mock("database".to_string(), CSV_DATA);
    let added = Insert
        .execute_insert(
            &table,
            vec!["Nombre".to_string(), "Edad".to_string()],
            vec![vec!["Juan".to_string(), "20".to_string()]],
        )
        .unwrap();
    assert_eq!(added, vec![",Juan,,20,,"]);
}

#[test]
fn consults_execute_select_fails_with_invalid_columns() {
    let table = Table::mock("./tests/database.csv".to_string(), CSV_DATA);
    let select = Select::new();
    // i'm trying to select a column that does not exist
    let columns = vec!["Trabajo Profesional".to_string()];
    let conditions = None;
    let sorting = None;

    let result = select.execute_select(&table, columns, conditions, sorting);

    assert_eq!(result.is_err(), true);
}

#[test]
fn select_execute_select_fails_with_invalid_columns() {
    let table = Table::mock("./tests/data/database.csv".to_string(), CSV_DATA);
    let select = Select::new();
    // i'm trying to select a column that does not exist
    let columns = vec!["Trabajo Profesional".to_string()];
    let conditions = None;
    let sorting = None;

    let result = select.execute_select(&table, columns, conditions, sorting);

    assert_eq!(result.is_err(), true);
}
