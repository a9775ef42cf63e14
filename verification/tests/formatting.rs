use blindfold::format_gitignore;

#[test]
fn prefixes_root_relative_pattern() {
    let out = format_gitignore("/build", Some("sub/"), "rust");
    assert_eq!(
        out,
        "# RUST gitignore generated by Blindfold\n\nsub/build\n\n"
    );
}

#[test]
fn negation_marker_moves_to_front() {
    let out = format_gitignore("!keep.txt", Some("sub/"), "rust");
    assert_eq!(
        out,
        "# RUST gitignore generated by Blindfold\n\n!sub/keep.txt\n\n"
    );
}

#[test]
fn comments_and_blanks_pass_through() {
    let out = format_gitignore("# note\n\ntarget/", Some("sub/"), "rust");
    assert_eq!(
        out,
        "# RUST gitignore generated by Blindfold\n\n# note\n\nsub/target/\n\n"
    );
}

#[test]
fn no_prefix_keeps_body_verbatim() {
    let body = "target/\n!keep.txt\n# note\n\n/build";
    let out = format_gitignore(body, None, "go");
    assert_eq!(
        out,
        format!("# GO gitignore generated by Blindfold\n\n{}\n\n", body)
    );
}

#[test]
fn prefix_without_trailing_slash_gets_separator() {
    let out = format_gitignore("build", Some("sub"), "c");
    assert_eq!(out, "# C gitignore generated by Blindfold\n\nsub/build\n\n");
}

#[test]
fn joined_paths_are_normalized() {
    let out = format_gitignore("**/**/obj", Some("sub/**/"), "cs");
    assert_eq!(
        out,
        "# CS gitignore generated by Blindfold\n\nsub/**/obj\n\n"
    );
}

#[test]
fn crlf_line_endings_are_handled() {
    let out = format_gitignore("a\r\nb", Some("p/"), "x");
    assert_eq!(out, "# X gitignore generated by Blindfold\n\np/a\np/b\n\n");
}

#[test]
fn empty_body_with_prefix() {
    let out = format_gitignore("", Some("sub/"), "zig");
    assert_eq!(out, "# ZIG gitignore generated by Blindfold\n\n\n\n");
}

#[test]
fn final_line_without_newline_kept() {
    let out = format_gitignore("a\nb", Some("q/"), "xx");
    assert_eq!(out, "# XX gitignore generated by Blindfold\n\nq/a\nq/b\n\n");
}
