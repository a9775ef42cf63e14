use blindfold::reduce_globstars;

#[test]
fn collapses_double_globstar_between_segments() {
    assert_eq!(reduce_globstars("a/**/**/b"), "a/**/b");
}

#[test]
fn collapses_globstar_only_path() {
    assert_eq!(reduce_globstars("**/**"), "**");
}

#[test]
fn leaves_plain_path_unchanged() {
    assert_eq!(reduce_globstars("a/b/c"), "a/b/c");
}

#[test]
fn collapses_long_runs() {
    assert_eq!(reduce_globstars("**/**/**/**"), "**");
    assert_eq!(reduce_globstars("a/**/**/**/b/**/**"), "a/**/b/**");
}

#[test]
fn keeps_empty_segments() {
    assert_eq!(reduce_globstars(""), "");
    assert_eq!(reduce_globstars("/"), "/");
    assert_eq!(reduce_globstars("//a//b//"), "//a//b//");
    assert_eq!(reduce_globstars("/**/**/"), "/**/");
}

#[test]
fn keeps_near_wildcards() {
    assert_eq!(reduce_globstars("a/***/**/**"), "a/***/**");
    assert_eq!(reduce_globstars("*/**/**/*"), "*/**/*");
}

#[test]
fn normalizing_twice_is_normalizing_once() {
    for p in ["a/**/**/b", "**/**", "", "x", "/**/**/**/", "a//**//**"] {
        let once = reduce_globstars(p);
        assert_eq!(reduce_globstars(&once), once);
    }
}
