use sitegen::keyed::KeyedMap;
use sitegen::sorting::sort_stable;
use sitegen::state::DeepestFirst;
use sitegen::text::bytes_eq;
use sitegen::text::bytes_le;
use sitegen::text::chars_of;
use sitegen::text::count_occurrences;
use sitegen::text::split_once;
use sitegen::text::str_eq;
use sitegen::text::str_le;

#[test]
fn strings_compare_as_their_bytes() {
    assert!(str_eq("abc", "abc"));
    assert!(!str_eq("abc", "abd"));
    assert!(!str_eq("abc", "ab"));
    assert!(str_eq("", ""));
    assert!(bytes_eq(b"\x00\xff", b"\x00\xff"));
    assert!(!bytes_eq(b"\x00", b"\x00\x00"));
    for (a, b) in [("", ""), ("", "a"), ("a", "b"), ("ab", "abc"), ("b", "abc"), ("é", "z"), ("a/b", "a-b")] {
        assert_eq!(str_le(a, b), a <= b);
        assert_eq!(str_le(b, a), b <= a);
        assert_eq!(bytes_le(a.as_bytes(), b.as_bytes()), a.as_bytes() <= b.as_bytes());
    }
}

#[test]
fn characters_and_occurrences() {
    assert_eq!(chars_of("añb"), vec!['a', 'ñ', 'b']);
    assert_eq!(chars_of(""), Vec::<char>::new());
    assert_eq!(count_occurrences("a/b/c", '/'), 2);
    assert_eq!(count_occurrences("abc", '/'), 0);
    assert_eq!(count_occurrences("///", '/'), 3);
    assert_eq!(count_occurrences("", '/'), 0);
}

#[test]
fn split_at_the_first_occurrence() {
    assert_eq!(split_once("a_b_c", '_'), Some(("a".to_string(), "b_c".to_string())));
    assert_eq!(split_once("_", '_'), Some((String::new(), String::new())));
    assert_eq!(split_once("abc", '_'), None);
    assert_eq!(split_once("é_ü", '_'), Some(("é".to_string(), "ü".to_string())));
}

#[test]
fn keyed_map_holds_each_key_once() {
    let mut m: KeyedMap<String> = KeyedMap::new();
    assert_eq!(m.len(), 0);
    m.insert("a".to_string(), "1".to_string());
    m.insert("b".to_string(), "2".to_string());
    m.insert("a".to_string(), "3".to_string());
    assert_eq!(m.len(), 2);
    assert_eq!(m.get("a"), Some(&"3".to_string()));
    assert_eq!(m.position("b"), Some(1));
    assert_eq!(m.key_at(0), "a");
    assert_eq!(m.value_at(1), "2");
    assert!(m.contains_key("b"));
    m.remove("a");
    assert_eq!(m.len(), 1);
    assert_eq!(m.get("a"), None);
    assert_eq!(m.position("b"), Some(0));
    m.remove("zzz");
    assert_eq!(m.len(), 1);
}

#[test]
fn stable_sort_by_depth() {
    let paths: Vec<String> =
        ["x", "a/b", "a/b/c", "y", "d/e", "f/g/h"].iter().map(|s| s.to_string()).collect();
    let sorted = sort_stable::<String, DeepestFirst>(paths);
    assert_eq!(sorted, vec!["a/b/c", "f/g/h", "a/b", "d/e", "x", "y"]);
    assert!(sort_stable::<String, DeepestFirst>(Vec::new()).is_empty());
}
