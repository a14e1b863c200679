use memoir::json::{parse_json, Json};
use memoir::lists::{count, distinct_texts, find_most_frequent};
use memoir::order::{order_of, sort_by_keys, take_window, Key};
use memoir::score::Score;
use memoir::text::{
    decimal_text, join, parse_u32, replace, rsplit_once, same_ignoring_case, split_at_char,
    split_words, trim, trim_leading, trim_trailing, WordKind,
};

fn strings(list: &[&str]) -> Vec<String> {
    list.iter().map(|s| s.to_string()).collect()
}

#[test]
fn sorting_is_stable() {
    let keys: Vec<Key> = [3, 1, 2, 1, 3, 0].iter().map(|n| Key::number(*n)).collect();
    assert_eq!(order_of(&keys), vec![5, 1, 3, 2, 0, 4]);
    let items = strings(&["a", "b", "c", "d", "e", "f"]);
    assert_eq!(sort_by_keys(items, &keys), strings(&["f", "b", "d", "c", "a", "e"]));
}

#[test]
fn texts_are_sorted_up_and_down() {
    let words = ["b", "", "ab", "a", "é"];
    let up: Vec<Key> = words.iter().map(|w| Key::number_and_text(0, w)).collect();
    assert_eq!(sort_by_keys(strings(&words), &up), strings(&["", "a", "ab", "b", "é"]));
    let down: Vec<Key> = words.iter().map(|w| Key::number_and_text_down(0, w)).collect();
    assert_eq!(sort_by_keys(strings(&words), &down), strings(&["é", "b", "ab", "a", ""]));
}

#[test]
fn a_long_list_is_sorted_as_the_standard_sort_does() {
    let numbers: Vec<i128> = (0..1000).map(|i: i128| (i * 7919) % 101).collect();
    let keys: Vec<Key> = numbers.iter().map(|n| Key::number(*n)).collect();
    let mut wanted: Vec<usize> = (0..1000).collect();
    wanted.sort_by_key(|i| numbers[*i]);
    assert_eq!(order_of(&keys), wanted);
}

#[test]
fn windows_are_cut_to_the_list() {
    assert_eq!(take_window(vec![1, 2, 3, 4], 1, 2), vec![2, 3]);
    assert_eq!(take_window(vec![1, 2], 1, 9), vec![2]);
    assert!(take_window(vec![1, 2], 2, 9).is_empty());
}

#[test]
fn scores_are_ordered_as_numbers() {
    let s = |f: f32| Score { bits: f.to_bits() };
    assert!(s(0.5).at_least(&s(0.25)));
    assert!(s(-0.0).at_least(&s(0.0)));
    assert!(!s(-1.0).at_least(&s(-0.5)));
    assert!(!s(f32::NAN).at_least(&s(0.0)));
    assert!(s(f32::INFINITY).at_least(&s(f32::MAX)));
}

#[test]
fn lists_are_counted() {
    let list = strings(&["b", "a", "a", "b", "c"]);
    assert_eq!(distinct_texts(&list), strings(&["b", "a", "c"]));
    assert_eq!(count(&list, "a"), 2);
    assert_eq!(find_most_frequent(&list).as_deref(), Some("b"));
    assert_eq!(find_most_frequent(&Vec::new()), None);
}

#[test]
fn texts_are_taken_apart() {
    assert_eq!(split_words(" a\tb \u{a0}c\u{3000}", WordKind::Printed), strings(&["a", "b", "c"]));
    assert_eq!(split_words("x-1,é_", WordKind::Alphanumeric), strings(&["x", "1", "é"]));
    assert_eq!(split_at_char("a..b", '.'), strings(&["a", "", "b"]));
    assert_eq!(split_at_char("", '.'), strings(&[""]));
    assert_eq!(rsplit_once("a:b:c", ':'), Some(("a:b", "c")));
    assert_eq!(trim(" \u{2003}x\n"), "x");
    assert_eq!(trim_leading("vv1v", 'v'), "1v");
    assert_eq!(trim_trailing("a//", '/'), "a");
}

#[test]
fn texts_are_put_together() {
    assert_eq!(join(&strings(&["a", "b"]), ", "), "a, b");
    assert_eq!(replace("a\nb", '\n', " "), "a b");
    assert_eq!(decimal_text(0), "0");
    assert_eq!(decimal_text(u64::MAX), "18446744073709551615");
    assert!(same_ignoring_case("NuLL", "null") && !same_ignoring_case("É", "é"));
}

#[test]
fn numbers_are_read() {
    assert_eq!(parse_u32("4294967295", 10), Some(u32::MAX));
    assert_eq!(parse_u32("4294967296", 10), None);
    assert_eq!(parse_u32("+7", 10), Some(7));
    assert_eq!(parse_u32("", 10), None);
    assert_eq!(parse_u32("+", 10), None);
    assert_eq!(parse_u32("-1", 10), None);
    assert_eq!(parse_u32("1F", 16), Some(31));
}

#[test]
fn trees_are_read_and_copied() {
    let j = parse_json(r#"{"a":[1,-2,1.5,"x",true,null],"b":{}}"#).unwrap();
    let copy = j.duplicate();
    let list = copy.list_at("a").unwrap();
    assert_eq!(list[0].unsigned(), Some(1));
    assert!(matches!(&list[1], Json::Number(n) if n == "-2"));
    assert!(matches!(&list[2], Json::Number(n) if n == "1.5"));
    assert_eq!(list[3].text(), Some("x"));
    assert!(matches!(list[4], Json::Bool(true)));
    assert!(matches!(list[5], Json::Null));
    assert!(parse_json("{").is_none());
    let over = parse_json(r#"{"b":1,"c":2}"#).unwrap();
    let merged = j.overlay(&over);
    assert_eq!(merged.get("b").unwrap().unsigned(), Some(1));
    assert_eq!(merged.get("c").unwrap().unsigned(), Some(2));
    assert_eq!(merged.list_at("a").unwrap().len(), 6);
}
