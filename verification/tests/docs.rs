use oryn::docs::{strip_slashes, DocTable};

fn doc_above(source: &str, needle: &str) -> Option<String> {
    let offset = source.find(needle).expect("needle not in source");
    DocTable::build(source).lookup_above(source, offset)
}

#[test]
fn single_comment_above_function() {
    let source = "// adds two numbers\nfn add(a, b) { rn a + b }";
    assert_eq!(doc_above(source, "fn add"), Some("adds two numbers".into()));
}

#[test]
fn multi_line_block_above_is_joined() {
    let source = "// first line\n// second line\n// third line\nlet x = 1";
    assert_eq!(
        doc_above(source, "let x"),
        Some("first line\nsecond line\nthird line".into())
    );
}

#[test]
fn blank_line_breaks_the_block() {
    let source = "// old comment\n\nlet x = 1";
    assert_eq!(doc_above(source, "let x"), None);
}

#[test]
fn only_the_adjacent_block_is_collected() {
    let source = "// unrelated\n\n// doc line 1\n// doc line 2\nfn foo() {}";
    assert_eq!(
        doc_above(source, "fn foo"),
        Some("doc line 1\ndoc line 2".into())
    );
}

#[test]
fn declaration_at_top_of_file_has_no_comment() {
    let source = "let x = 1";
    assert_eq!(doc_above(source, "let x"), None);
}

#[test]
fn code_between_comment_and_decl_breaks_the_block() {
    let source = "// doc\nlet y = 0\nlet x = 1";
    assert_eq!(doc_above(source, "let x"), None);
}

#[test]
fn trailing_comment_does_not_attach_to_next_decl() {
    let source = "let y = 1 // trailing\nlet x = 2";
    assert_eq!(doc_above(source, "let x"), None);
}

#[test]
fn comment_inside_string_literal_is_not_picked_up() {
    let source = "let s = \"// not a comment\"\nfn foo() {}";
    assert_eq!(doc_above(source, "fn foo"), None);
}

#[test]
fn strip_slashes_removes_prefix_and_optional_space() {
    assert_eq!(strip_slashes("// hello"), "hello");
    assert_eq!(strip_slashes("//no space"), "no space");
    assert_eq!(strip_slashes("//  double space"), " double space");
}

#[test]
fn indented_comment_block_is_accepted() {
    let source = "obj Foo {\n    // field doc\n    x: int\n}";
    assert_eq!(doc_above(source, "x: int"), Some("field doc".into()));
}

#[test]
fn comment_block_keeps_non_ascii_text() {
    let source = "// café ☕\nlet x = 1";
    assert_eq!(doc_above(source, "let x"), Some("café ☕".into()));
}

#[test]
fn comment_after_declaration_is_ignored() {
    let source = "let x = 1\n// below";
    assert_eq!(doc_above(source, "let x"), None);
}

#[test]
fn offset_past_the_end_counts_as_the_end() {
    let source = "// last\n";
    assert_eq!(
        DocTable::build(source).lookup_above(source, 100),
        Some("last".into())
    );
}
