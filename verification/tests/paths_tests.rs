use mods_handler::paths::{normalize_path_fallback, normalize_path_string};
use mods_handler::schema::{migrations_due, LATEST_VERSION};

#[test]
fn fallback_turns_backslashes_and_strips_trailing_slashes() {
    assert_eq!(normalize_path_fallback("C:\\mods\\Author\\Mod\\"), "C:/mods/Author/Mod");
    assert_eq!(normalize_path_fallback("/lib/author/mod///"), "/lib/author/mod");
    assert_eq!(normalize_path_fallback("a/b"), "a/b");
    assert_eq!(normalize_path_fallback("a\\b/"), "a/b");
}

#[test]
fn fallback_keeps_a_path_of_one_character() {
    assert_eq!(normalize_path_fallback("/"), "/");
    assert_eq!(normalize_path_fallback("\\"), "/");
    assert_eq!(normalize_path_fallback("//"), "/");
    assert_eq!(normalize_path_fallback(""), "");
    assert_eq!(normalize_path_fallback("x"), "x");
}

#[test]
fn fallback_is_a_fixed_point() {
    for p in ["C:\\mods\\a\\", "/x/y///", "/", "", "rel\\path", "a//b//"] {
        let once = normalize_path_fallback(p);
        assert_eq!(normalize_path_fallback(&once), once);
        assert_eq!(normalize_path_string(&once, None), once);
    }
}

#[test]
fn resolved_path_is_taken_as_it_is() {
    assert_eq!(
        normalize_path_string("lib\\mod\\", Some("/abs/lib/mod".to_string())),
        "/abs/lib/mod"
    );
    assert_eq!(normalize_path_string("lib\\mod\\", None), "lib/mod");
}

#[test]
fn schema_steps_are_taken_once_and_in_order() {
    assert_eq!(migrations_due(0), vec![1, 2]);
    assert_eq!(migrations_due(-7), vec![1, 2]);
    assert_eq!(migrations_due(1), vec![2]);
    assert_eq!(migrations_due(2), Vec::<i64>::new());
    assert_eq!(migrations_due(9), Vec::<i64>::new());
    assert_eq!(LATEST_VERSION, 2);
}
