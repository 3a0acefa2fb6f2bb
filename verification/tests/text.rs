use brainprint_engine::fingerprint::fingerprint;
use brainprint_engine::json::{json_number, json_text, json_texts, Json, ObjectBuilder};
use brainprint_engine::paths::{components_of, join_path, path_is_absolute, paths_agree};
use brainprint_engine::python_semantic::coordinates::{LineMap, Position, Range};
use brainprint_engine::python_semantic::uri::{path_to_uri, uri_to_path};
use brainprint_engine::query_text::{
    basename_of, contains_ascii_folded, directory_prefix, escape_like, is_direct_child,
    prefix_upper_bound,
};
use brainprint_engine::text::{decimal_text, is_before, same_text, sorted_texts, trim_text};

#[test]
fn a_path_and_its_uri_are_the_same_place() {
    for path in ["/w/pkg/impl.py", "/w/a b/c#d.py", "/w/변수/é.py", "/w/100%/x.py"] {
        assert_eq!(uri_to_path(&path_to_uri(path)).as_deref(), Some(path));
    }
    assert_eq!(path_to_uri("/w/a b.py"), "file:///w/a%20b.py");
    assert_eq!(uri_to_path("https://example.org/x"), None);
    assert_eq!(uri_to_path("file:///w/%ff.py"), None, "bytes that are no text");
}

#[test]
fn an_escape_is_two_hexadecimal_digits_or_nothing() {
    assert_eq!(uri_to_path("file:///a%0f").as_deref(), Some("/a\u{f}"));
    assert_eq!(uri_to_path("file:///a%2B").as_deref(), Some("/a+"));
    for undecodable in ["%+f", "%-f", "%f+", "%g0", "%0g", "% f", "%f", "%"] {
        assert_eq!(uri_to_path(&format!("file:///a{undecodable}")), None, "{undecodable}");
    }
}

#[test]
fn positions_count_utf16_units_and_spans_count_bytes() {
    let text = "a변\nb😀c\n";
    let map = LineMap::new(text);
    let place = text.find('c').expect("c");
    assert_eq!(map.position(place), Some(Position::new(1, 3)));
    assert_eq!(
        map.span(Range::new(Position::new(1, 1), Position::new(1, 3))),
        Some((text.find('😀').expect("a face"), place))
    );
    assert_eq!(map.position(2), None, "inside a character");
    assert_eq!(
        map.span(Range::new(Position::new(1, 2), Position::new(1, 3))),
        None,
        "inside a surrogate pair"
    );
    assert_eq!(
        map.range(0, 1),
        Some(Range::new(Position::new(0, 0), Position::new(0, 1)))
    );
}

#[test]
fn a_fingerprint_tells_its_inputs_apart() {
    let one = fingerprint("d", &[("a", "b"), ("c", "d")]);
    assert_eq!(one, fingerprint("d", &[("a", "b"), ("c", "d")]));
    assert_ne!(one, fingerprint("e", &[("a", "b"), ("c", "d")]));
    assert_ne!(one, fingerprint("d", &[("ab", ""), ("c", "d")]));
    assert_ne!(one, fingerprint("d", &[("a", "b")]));
}

#[test]
fn paths_agree_by_their_components() {
    assert!(paths_agree("/a//b/./c/", "/a/b/c"));
    assert!(!paths_agree("a/b", "/a/b"));
    assert_eq!(components_of("/a//b/"), vec!["/", "a", "b"]);
    assert!(path_is_absolute("/a"));
    assert!(!path_is_absolute("a"));
    assert_eq!(join_path("/w", "a/b"), "/w/a/b");
    assert_eq!(join_path("/w", "/abs"), "/abs");
}

#[test]
fn query_text_reads_directories_names_and_patterns() {
    assert_eq!(directory_prefix(""), "");
    assert_eq!(directory_prefix("src//"), "src/");
    assert!(is_direct_child("src/a.rs", "src/"));
    assert!(!is_direct_child("src/x/a.rs", "src/"));
    assert_eq!(basename_of("src/x/a.rs"), "a.rs");
    assert!(contains_ascii_folded("HelperFn", "lpERf"));
    assert!(!contains_ascii_folded("É", "é"), "only ASCII letters fold");
    assert_eq!(escape_like("50%_\\"), "50\\%\\_\\\\");
    assert_eq!(prefix_upper_bound("src/"), Some("src0".to_owned()));
    assert_eq!(prefix_upper_bound(""), None);
}

#[test]
fn texts_are_ordered_by_their_characters() {
    assert!(is_before("a", "b"));
    assert!(is_before("a", "ab"));
    assert!(!is_before("b", "a"));
    assert!(same_text("변", "변"));
    let sorted = sorted_texts(&["b".to_owned(), "a".to_owned(), "ab".to_owned()]);
    assert_eq!(sorted, vec!["a", "ab", "b"]);
    assert_eq!(trim_text(" \t x y \n"), "x y");
    assert_eq!(trim_text("\u{3000}"), "");
    assert_eq!(decimal_text(-120), "-120");
    assert_eq!(decimal_text(0), "0");
}

#[test]
fn json_values_are_read_by_name() {
    let object = ObjectBuilder::new()
        .with("name", json_text("x"))
        .with("count", json_number(3))
        .with("tags", json_texts(&["a".to_owned()]))
        .build();
    assert_eq!(object.get("name").and_then(Json::as_str), Some(&"x".to_owned()));
    assert_eq!(object.get("count").and_then(Json::as_u64), Some(3));
    assert_eq!(object.get("tags").and_then(Json::as_array).map(Vec::len), Some(1));
    assert_eq!(object.get("absent"), None);
    assert_eq!(Json::Bool(true).as_bool(), Some(true));
    assert_eq!(Json::Null.get("x"), None);
    assert_eq!(object.clone(), object);
}
