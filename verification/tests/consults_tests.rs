use tp_individual::consults::delete::Delete;
use tp_individual::consults::insert::Insert;
use tp_individual::consults::select::Select;
use tp_individual::consults::update::Update;

#[test]
fn consults_select_invalid_query_throws_error() {
    let select = Select::new();
    let invalid_consults: Vec<&str> = Vec::from([
        "name, age FROM table",    // missing select
        "SELECT name, age table;", // missing a coma
        "SELECT name, age",        // missing FROM
    ]);
    for invalid_query in invalid_consults {
        assert_eq!(select.is_valid_query(invalid_query), false);
    }
}

#[test]
fn select_select_invalid_query_throws_error() {
    let select = Select::new();
    let invalid_consults: Vec<&str> = Vec::from([
        "name, age FROM table",    // missing select
        "SELECT name, age table;", // missing a coma
        "SELECT name, age",        // missing FROM
        "name, age FROM",          // missing table name
    ]);
    for invalid_query in invalid_consults {
        assert_eq!(select.is_valid_query(invalid_query), false);
    }
}

#[test]
fn select_valid_queries_pass() {
    let select = Select::default();
    assert_eq!(select.is_valid_query("SELECT name FROM table;"), true);
    assert_eq!(select.is_valid_query("  SELECT * FROM t WHERE a = 1;  \n"), true);
    assert_eq!(select.is_valid_query("select name FROM table;"), false);
    assert_eq!(select.is_valid_query(""), false);
}

#[test]
fn insert_test_is_valid_query() {
    let insert = Insert;
    let query = "INSERT INTO table VALUES ('Juan', 20);";
    assert_eq!(insert.is_valid_query(query), true);

    let query = "INSERT INTO table VALUES ('Juan', 20)";
    assert_eq!(insert.is_valid_query(query), false);

    let query = "INSERT INTO table ('Juan', 20);";
    assert_eq!(insert.is_valid_query(query), false);

    let query = "INSERT INTO table VALUES ('Juan', 20)";
    assert_eq!(insert.is_valid_query(query), false);
}

#[test]
fn delete_test_is_valid_query() {
    let delete = Delete;
    let query = "DELETE FROM table;";
    assert_eq!(delete.is_valid_query(query), true);

    let query = "DELETE FROM table";
    assert_eq!(delete.is_valid_query(query), false);
}

#[test]
fn test_multiple_update_querys_passes() {
    let update = Update::new();

    let query = "UPDATE table_name SET column1 = value1, column2 = value2 WHERE condition;";
    assert_eq!(update.is_valid_query(query), true);

    let query = "UPDATE table_name SET column1 = value1, column2 = value2;";
    assert_eq!(update.is_valid_query(query), true);

    let query = "UPDATE table_name SET column1 = value1, column2 = value2";
    assert_eq!(update.is_valid_query(query), false);

    let query = "UPDATE table_name SET column1 = value1, column2 = value2 WHERE condition";
    assert_eq!(update.is_valid_query(query), false);

    let query = "UPDATE table_name SET column1 = value1, column2 = value2 WHERE condition";
    assert_eq!(update.is_valid_query(query), false);

    let query = "UPDATE table_name SET column1 = value1, column2 = value2 WHERE condition";
    assert_eq!(update.is_valid_query(query), false);
}
