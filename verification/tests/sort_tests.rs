use tp_individual::sorter::sort::SortMethod;

#[test]
fn test_sort_method() {
    let sort_method = SortMethod {
        by_column: "test_column".to_string(),
        ascending: true,
    };

    assert_eq!(sort_method.get_by_column(), "test_column");
    assert_eq!(sort_method.is_ascending(), true);
}

#[test]
fn sort_methods_compare_by_column_and_direction() {
    let up = SortMethod {
        by_column: "a".to_string(),
        ascending: true,
    };
    let down = SortMethod {
        by_column: "a".to_string(),
        ascending: false,
    };
    let other = SortMethod {
        by_column: "b".to_string(),
        ascending: true,
    };
    assert!(up == SortMethod { by_column: "a".to_string(), ascending: true });
    assert!(up != down);
    assert!(up != other);
}
