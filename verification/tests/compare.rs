use vorgrs::utils::{compare_lists, ListCompareResult};
use vorgrs::schema::SchemaColumn;

fn svec(xs: &[&str]) -> Vec<String> {
    xs.iter().map(|s| s.to_string()).collect()
}

#[test]
fn simple_lists() {
    let cases: Vec<(Vec<String>, Vec<String>)> = vec![
        (svec(&[]), svec(&[])),
        (svec(&[]), svec(&["1"])),
        (svec(&["2"]), svec(&[])),
        (svec(&["2", "6"]), svec(&["2", "4", "6"])),
        (svec(&["2", "4", "6"]), svec(&["2", "6"])),
        (svec(&["2", "4"]), svec(&["2", "4", "6"])),
        (svec(&["2", "4", "6"]), svec(&["2", "4"])),
        (svec(&["2", "4", "6"]), svec(&["2", "4", "6"])),
    ];
    let results = [
        ListCompareResult::Identical,
        ListCompareResult::Missing(&cases[1].1[0]),
        ListCompareResult::Unexpected(&cases[2].0[0]),
        ListCompareResult::Missing(&cases[3].1[1]),
        ListCompareResult::Unexpected(&cases[4].0[1]),
        ListCompareResult::Missing(&cases[5].1[2]),
        ListCompareResult::Unexpected(&cases[6].0[2]),
        ListCompareResult::Identical,
    ];
    for (case, expected) in cases.iter().zip(results.iter()) {
        let result = compare_lists(&case.0, &case.1);
        assert_eq!(&result, expected);
    }
}

fn columns(xs: &[(&str, &str)]) -> Vec<SchemaColumn> {
    xs.iter()
        .map(|(name, ctype)| SchemaColumn { name: name.to_string(), ctype: ctype.to_string() })
        .collect()
}

#[test]
fn custom_key() {
    let list_a = columns(&[("1", "1"), ("2", "2"), ("3", "3"), ("4", "4")]);
    let list_b = columns(&[("1", "1"), ("2", "2"), ("3", "3"), ("4", "5")]);

    let result = compare_lists(&list_a, &list_b);

    match result {
        ListCompareResult::Unequal(c) => {
            assert_eq!(c.name, "4");
            assert_eq!(c.ctype, "5");
        }
        _ => panic!("expected an unequal result"),
    }
}

#[test]
fn unexpected() {
    let list_a = svec(&["1", "2", "3", "4", "5"]);
    let list_b = svec(&["1", "2", "4"]);

    let result = compare_lists(&list_a, &list_b);

    assert_eq!(result, ListCompareResult::Unexpected(&list_a[2]));
}

#[test]
fn debug() {
    let result = ListCompareResult::<i32>::Identical;

    let debug = format!("{:?}", result);

    assert_eq!(debug, "Identical");
}
