use leo_linter::normalizer::add_indentation;
use leo_linter::normalizer::normalize_code;

#[test]
fn end_to_end_example() {
    let out = normalize_code("function f(){let x:u8=1;}");
    assert_eq!(out, "function f(  ){\n    let x: u8=1;\n    \n}");
    assert_eq!(out.lines().count(), 4);
}

#[test]
fn colon_gets_one_space() {
    assert_eq!(normalize_code("x:y"), "x: y");
}

#[test]
fn parens_get_inner_spaces() {
    assert_eq!(normalize_code("f(x)"), "f( x )");
}

#[test]
fn empty_parens() {
    assert_eq!(normalize_code("()"), "(  )");
}

#[test]
fn semicolon_breaks_line_and_indents() {
    assert_eq!(normalize_code("a{b;c}"), "a{\n    b;\n    c\n}");
}

#[test]
fn spaces_collapse_to_one() {
    assert_eq!(normalize_code("a   b"), normalize_code("a b"));
    assert_eq!(normalize_code("a   b"), "a b");
}

#[test]
fn forced_space_after_colon_absorbs_input_space() {
    assert_eq!(normalize_code("x:  y"), "x: y");
}

#[test]
fn source_newlines_are_dropped() {
    assert_eq!(normalize_code("a\nb"), "ab");
}

#[test]
fn nested_braces_indent_by_four_per_level() {
    assert_eq!(
        normalize_code("a{b{c}d}"),
        "a{\n    b{\n        c\n    }\n    d\n}"
    );
}

#[test]
fn balanced_braces_close_at_left_margin() {
    let out = normalize_code("a{b{c}d}");
    assert!(out.ends_with("\n}"));
}

#[test]
fn lone_closing_brace_is_dropped() {
    assert_eq!(normalize_code("}"), "");
    assert_eq!(normalize_code("a}b"), "ab");
}

#[test]
fn comment_text_is_copied_verbatim() {
    // `;`, `{`, `}`, `:`, `(` and `)` inside a line comment trigger no
    // formatting action.
    assert_eq!(
        normalize_code("a{//c;(:){}\nb;}"),
        "a{\n    //c;(:){}\n    b;\n    \n}"
    );
}

#[test]
fn newline_closes_a_comment_and_indents() {
    assert_eq!(normalize_code("//x\ny;"), "//x\ny;");
}

#[test]
fn comment_at_end_of_input() {
    assert_eq!(normalize_code("a;//trailing"), "a;\n//trailing");
}

#[test]
fn single_slash_is_not_a_comment() {
    assert_eq!(normalize_code("a/b"), "a/b");
}

#[test]
fn trailing_whitespace_is_trimmed() {
    assert_eq!(normalize_code("a;  "), "a;");
    assert_eq!(normalize_code("a \n\t "), "a");
}

#[test]
fn trailing_unicode_whitespace_is_trimmed() {
    // the trim covers the whole White_Space set, not just the ASCII part
    assert_eq!(normalize_code("a\u{000B}"), "a");
    assert_eq!(normalize_code("a\u{000C}\u{0085}"), "a");
    assert_eq!(normalize_code("a\u{00A0}\u{2028}\u{3000}"), "a");
    // …but only at the end: interior whitespace other than spaces and
    // newlines passes through the default rule untouched
    assert_eq!(normalize_code("a\u{000B}b"), "a\u{000B}b");
}

#[test]
fn output_never_ends_in_whitespace() {
    for input in ["a;", "x{y;}", "a \u{00A0}", "//c ", ""] {
        let out = normalize_code(input);
        assert!(out.is_empty() || !out.chars().last().unwrap().is_whitespace());
    }
}

#[test]
fn empty_input() {
    assert_eq!(normalize_code(""), "");
}

#[test]
fn normalize_is_idempotent_on_plain_code() {
    let once = normalize_code("function f(){let x:u8=1;}");
    assert_eq!(normalize_code(&once), once);
}

#[test]
fn normalize_is_idempotent_on_comments_and_nesting() {
    let once = normalize_code("a{ //note\nb{c;} d;}");
    assert_eq!(normalize_code(&once), once);
}

#[test]
fn close_paren_gets_its_own_leading_space() {
    // The `)` rule always prepends one space of its own; after a non-space
    // it stacks with nothing, after the `(` rule's space they sit together.
    assert_eq!(normalize_code("a)"), "a )");
}

#[test]
fn close_paren_after_space_renormalizes_stably() {
    // With a space before it in the input, the collapsed space and the `)`
    // rule's own space settle into a stable two-space form.
    let once = normalize_code("a )");
    assert_eq!(once, "a  )");
    assert_eq!(normalize_code(&once), once);
}

#[test]
fn unicode_text_passes_through() {
    assert_eq!(normalize_code("héllo:wörld"), "héllo: wörld");
}

#[test]
fn add_indentation_writes_four_spaces_per_level() {
    let mut s = String::from("x");
    add_indentation(&mut s, 0);
    assert_eq!(s, "x");
    add_indentation(&mut s, 2);
    assert_eq!(s, "x        ");
}
