use ts_api::path::{file_name_or_root, file_stem, ts_file_name, ts_path};
use ts_api::text::{join, split, str_eq, str_lt};

fn strings(items: &[&str]) -> Vec<String> {
    items.iter().map(|s| s.to_string()).collect()
}

#[test]
fn file_name_of_root_path() {
    assert_eq!(ts_file_name("/"), "root");
    assert_eq!(ts_file_name(""), "root");
}

#[test]
fn file_name_is_camel_case_of_segments() {
    assert_eq!(ts_file_name("/user/login"), "userLogin");
    assert_eq!(ts_file_name("/user"), "user");
    assert_eq!(ts_file_name("/user/:id"), "userId");
    assert_eq!(ts_file_name("/user_login"), "userLogin");
}

#[test]
fn file_stem_joins_bare_segments() {
    assert_eq!(file_stem("/user/:id"), "_user_id");
    assert_eq!(file_stem("/"), "_");
    assert_eq!(file_stem("a/::b"), "a_:b");
}

#[test]
fn dynamic_segments_become_braces() {
    assert_eq!(ts_path("/user/:id"), "/user/{id}");
    assert_eq!(ts_path("/user/login"), "/user/login");
    assert_eq!(ts_path("/:a/:b/c"), "/{a}/{b}/c");
    assert_eq!(ts_path("/"), "/");
    assert_eq!(ts_path("/:"), "/{}");
}

#[test]
fn split_keeps_empty_pieces() {
    assert_eq!(split("/a//b/", '/'), strings(&["", "a", "", "b", ""]));
    assert_eq!(split("", '/'), strings(&[""]));
    assert_eq!(split("abc", '/'), strings(&["abc"]));
}

#[test]
fn join_puts_separator_between() {
    assert_eq!(join(&strings(&["a", "b", "c"]), ", "), "a, b, c");
    assert_eq!(join(&strings(&["a"]), ", "), "a");
    assert_eq!(join(&strings(&[]), ", "), "");
    assert_eq!(join(&split("/x/y", '/'), "/"), "/x/y");
}

#[test]
fn names_are_ordered_like_strings() {
    for (a, b) in [("a", "b"), ("", "a"), ("a", "ab"), ("B", "a"), ("z", "é"), ("x", "x")] {
        assert_eq!(str_lt(a, b), a < b);
        assert_eq!(str_lt(b, a), b < a);
        assert_eq!(str_eq(a, b), a == b);
    }
}

#[test]
fn empty_stem_is_root() {
    assert_eq!(file_name_or_root(String::new()), "root");
    assert_eq!(file_name_or_root("x".to_string()), "x");
    assert_eq!(ts_file_name("/__/--"), "root");
    assert_eq!(ts_file_name("/:"), "root");
}

#[test]
fn file_name_goes_by_the_words_of_the_path() {
    assert_eq!(ts_file_name("/api/v1/user-list"), "apiV1UserList");
    assert_eq!(ts_file_name("/HTTPRequest"), "httpRequest");
    assert_eq!(ts_file_name("/user/:user_id/posts"), "userUserIdPosts");
}
