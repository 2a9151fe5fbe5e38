use plc_xmlgen::numtext::i32_to_dec;
use plc_xmlgen::numtext::parse_i32;
use plc_xmlgen::numtext::u64_to_dec;
use plc_xmlgen::numtext::usize_to_dec;
use plc_xmlgen::resolver::format_enum_initials;
use plc_xmlgen::resolver::resolve_enum_initials;
use plc_xmlgen::resolver::NameAndInitialValue;

fn candidate(name: &str, value: &str) -> NameAndInitialValue {
    NameAndInitialValue { name: String::from(name), initial_value: String::from(value) }
}

fn resolved_values(variants: Vec<NameAndInitialValue>) -> Vec<(String, String)> {
    resolve_enum_initials(&variants)
        .unwrap()
        .into_iter()
        .map(|v| (v.name, v.initial_value))
        .collect()
}

#[test]
fn test_format_enum_initials_no_conflicts() {
    let variants = vec![candidate("A", "0"), candidate("B", "1"), candidate("C", "2")];

    let result = format_enum_initials(variants);
    assert_eq!(result.unwrap().len(), 3);
}

#[test]
fn test_format_enum_initials_with_conflicts() {
    let variants = vec![
        candidate("A", "0"),
        candidate("B", "0"), // conflict with A
        candidate("C", "1"), // conflict with auto-incremented B
    ];

    let result = format_enum_initials(variants);
    assert_eq!(result.unwrap().len(), 3);
    // After resolution: A=0, B=1 (incremented), C=2 (incremented since 1 is taken)
}

#[test]
fn test_format_enum_initials_empty() {
    let variants: Vec<NameAndInitialValue> = vec![];
    let result = format_enum_initials(variants);
    assert_eq!(result.unwrap().len(), 0);
}

#[test]
fn test_format_enum_initials_single_element() {
    let variants = vec![candidate("ONLY", "42")];

    let result = format_enum_initials(variants);
    assert_eq!(result.unwrap().len(), 1);
}

#[test]
fn test_format_enum_initials_all_same_value() {
    let variants = vec![candidate("X", "5"), candidate("Y", "5"), candidate("Z", "5")];

    let result = format_enum_initials(variants);
    assert_eq!(result.unwrap().len(), 3);
    // Should auto-increment: X=5, Y=6, Z=7
}

#[test]
fn test_format_enum_initials_negative_values() {
    let variants = vec![
        candidate("NEG", "-1"),
        candidate("NEG2", "-1"), // conflict
    ];

    let result = format_enum_initials(variants);
    assert_eq!(result.unwrap().len(), 2);
    // NEG=-1, NEG2=0 (incremented from -1)
}

#[test]
fn test_format_enum_initials_consecutive_conflicts() {
    let variants = vec![
        candidate("A", "0"),
        candidate("B", "1"),
        candidate("C", "0"), // conflicts with A, tries 1 (taken by B), settles on 2
    ];

    let result = format_enum_initials(variants);
    assert_eq!(result.unwrap().len(), 3);
}

#[test]
fn test_resolved_values_cascade() {
    let out = resolved_values(vec![candidate("A", "0"), candidate("B", "0"), candidate("C", "1")]);
    assert_eq!(out[0], (String::from("A"), String::from("0")));
    assert_eq!(out[1], (String::from("B"), String::from("1")));
    assert_eq!(out[2], (String::from("C"), String::from("2")));
}

#[test]
fn test_resolved_values_all_same() {
    let out = resolved_values(vec![candidate("X", "5"), candidate("Y", "5"), candidate("Z", "5")]);
    assert_eq!(out[0], (String::from("X"), String::from("5")));
    assert_eq!(out[1], (String::from("Y"), String::from("6")));
    assert_eq!(out[2], (String::from("Z"), String::from("7")));
}

#[test]
fn test_resolved_values_negative() {
    let out = resolved_values(vec![candidate("NEG", "-1"), candidate("NEG2", "-1")]);
    assert_eq!(out[0], (String::from("NEG"), String::from("-1")));
    assert_eq!(out[1], (String::from("NEG2"), String::from("0")));
}

#[test]
fn test_resolved_values_consecutive_conflicts() {
    let out = resolved_values(vec![candidate("A", "0"), candidate("B", "1"), candidate("C", "0")]);
    assert_eq!(out[2].1, "2");
}

#[test]
fn test_resolved_values_pairwise_distinct() {
    let out = resolved_values(vec![
        candidate("A", "3"),
        candidate("B", "3"),
        candidate("C", "4"),
        candidate("D", "3"),
        candidate("E", "-7"),
        candidate("F", "-7"),
    ]);
    for i in 0..out.len() {
        for j in 0..out.len() {
            if i != j {
                assert_ne!(out[i].1, out[j].1);
            }
        }
    }
}

#[test]
fn test_format_enum_initials_node_attributes() {
    let variants = vec![candidate("RED", "0"), candidate("GREEN", "0")];
    let nodes = format_enum_initials(variants).unwrap();
    assert_eq!(nodes[0].name, "Enumerator");
    assert_eq!(nodes[0].attributes[0], (String::from("name"), String::from("RED")));
    assert_eq!(nodes[0].attributes[1], (String::from("value"), String::from("0")));
    assert_eq!(nodes[1].attributes[0], (String::from("name"), String::from("GREEN")));
    assert_eq!(nodes[1].attributes[1], (String::from("value"), String::from("1")));
}

#[test]
fn test_resolved_values_plus_signed_distinct_texts() {
    // "+5" and "5" are different texts, so they do not conflict
    let out = resolved_values(vec![candidate("P", "+5"), candidate("Q", "5")]);
    assert_eq!(out[0], (String::from("P"), String::from("+5")));
    assert_eq!(out[1], (String::from("Q"), String::from("5")));
}

#[test]
fn test_resolved_values_plus_signed_conflict() {
    // a conflicting "+5" parses to 5 and probes upward to the canonical "6"
    let out = resolved_values(vec![candidate("P", "+5"), candidate("Q", "+5")]);
    assert_eq!(out[0], (String::from("P"), String::from("+5")));
    assert_eq!(out[1], (String::from("Q"), String::from("6")));
}

#[test]
fn test_decimal_text_round_trip() {
    assert_eq!(i32_to_dec(0), "0");
    assert_eq!(i32_to_dec(42), "42");
    assert_eq!(i32_to_dec(-1), "-1");
    assert_eq!(i32_to_dec(-2147483648), "-2147483648");
    assert_eq!(i32_to_dec(2147483647), "2147483647");
    assert_eq!(u64_to_dec(18446744073709551615), "18446744073709551615");
    assert_eq!(usize_to_dec(1986), "1986");
    assert_eq!(parse_i32("0"), 0);
    assert_eq!(parse_i32("-1"), -1);
    assert_eq!(parse_i32("+12"), 12);
    assert_eq!(parse_i32("007"), 7);
    assert_eq!(parse_i32("-2147483648"), -2147483648);
    assert_eq!(parse_i32("2147483647"), 2147483647);
}
