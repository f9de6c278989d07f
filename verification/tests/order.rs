use bread::order::{precedes, sort_by_name};

fn chars(s: &str) -> Vec<char> {
    s.chars().collect()
}

#[test]
fn names_are_ordered_by_their_characters() {
    let cases = [
        ("", "", true),
        ("", "a", true),
        ("a", "", false),
        ("a", "a", true),
        ("a", "b", true),
        ("b", "a", false),
        ("ab", "abc", true),
        ("abc", "ab", false),
        ("Z", "a", true),
        ("z", "é", true),
        ("a@10", "a@9", true),
    ];
    for (a, b, want) in cases {
        assert_eq!(precedes(&chars(a), &chars(b)), want, "{:?} {:?}", a, b);
        assert_eq!(a <= b, want);
    }
}

#[test]
fn sorting_agrees_with_the_order_of_strings() {
    let given: Vec<String> =
        ["pear", "apple", "", "fig", "apple", "Fig", "figs", "ünder", "zebra", "a"].iter().map(|s| s.to_string()).collect();
    let mut want = given.clone();
    want.sort();
    assert_eq!(sort_by_name(given), want);
    assert_eq!(sort_by_name(Vec::<String>::new()), Vec::<String>::new());
    assert_eq!(sort_by_name(vec!["x".to_string()]), vec!["x".to_string()]);
}
