use bintray_resource::order::{
    comes_before, sort_ascending, sort_descending, sort_names, stands_first,
};

fn strings(items: &[&str]) -> Vec<String> {
    items.iter().map(|s| s.to_string()).collect()
}

#[test]
fn order_of_names() {
    assert!(comes_before("a", "b"));
    assert!(!comes_before("b", "a"));
    assert!(comes_before("a", "ab"));
    assert!(!comes_before("ab", "a"));
    assert!(comes_before("", "a"));
    assert!(!comes_before("a", "a"));
    assert!(!comes_before("", ""));
    assert!(comes_before("Z", "a"));
    assert!(comes_before("10", "9"));
}

#[test]
fn order_of_names_is_that_of_strings() {
    let names = ["", "a", "ab", "b", "é", "z", "\u{10000}", "\u{ffff}", "A", "1.10", "1.9"];
    for x in names.iter() {
        for y in names.iter() {
            assert_eq!(comes_before(x, y), x < y, "{:?} {:?}", x, y);
        }
    }
}

#[test]
fn direction_of_sorting() {
    assert!(stands_first("b", "a", true));
    assert!(!stands_first("a", "b", true));
    assert!(stands_first("a", "b", false));
    assert!(!stands_first("a", "a", false));
}

#[test]
fn sorting_down_and_up() {
    let names = strings(&["1.2", "1.10", "2.0", "1.2", "0.1"]);
    assert_eq!(sort_descending(&names), strings(&["2.0", "1.2", "1.2", "1.10", "0.1"]));
    assert_eq!(sort_ascending(&names), strings(&["0.1", "1.10", "1.2", "1.2", "2.0"]));
    assert_eq!(sort_names(&names, true), sort_descending(&names));
    assert_eq!(sort_names(&Vec::new(), false), Vec::<String>::new());
}

#[test]
fn sorting_agrees_with_the_standard_library() {
    let names = strings(&["b", "a", "", "ab", "é", "B", "10", "9", "a"]);
    let mut expected = names.clone();
    expected.sort();
    assert_eq!(sort_ascending(&names), expected);
    expected.reverse();
    assert_eq!(sort_descending(&names), expected);
}
