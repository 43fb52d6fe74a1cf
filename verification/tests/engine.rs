use cgrep::error::SearchError;
use cgrep::parse::{parse_file, FileTable};
use cgrep::search::{
    match_file, plan, search, search_hits, search_keyword, LoadedFile, MatchHit, Plan,
};
use cgrep::shard::{merge, partition};
use cgrep::snippet::{
    compile_keyword, compile_pattern, generalize, get_node_text, lift, pattern_of_tree,
};

const ADD: &str = "fn add(x: i32, y: i32) -> i32 { return x + y; }";

fn load(path: &str, source: &str) -> LoadedFile {
    let parsed = parse_file(path.to_string(), source, tree_sitter_rust::language()).unwrap();
    LoadedFile { path: parsed.path, tree: parsed.tree, bytes: source.as_bytes().to_vec() }
}

fn lines(keyword: &str, files: &Vec<LoadedFile>) -> Vec<String> {
    let query = compile_keyword(keyword, tree_sitter_rust::language()).unwrap();
    search(&query, files)
}

#[test]
fn function_snippet_generalizes_field_by_field() {
    let pattern = generalize(ADD, tree_sitter_rust::language());
    assert_eq!(
        pattern,
        Ok("((function_item name: (identifier) @name0 (#eq? @name0 \"add\") \
            parameters: (parameters \
            (parameter pattern: (identifier) @pattern2 (#eq? @pattern2 \"x\") \
            type: (primitive_type) @type3 (#eq? @type3 \"i32\")) \
            (parameter pattern: (identifier) @pattern4 (#eq? @pattern4 \"y\") \
            type: (primitive_type) @type5 (#eq? @type5 \"i32\"))) \
            @parameters1 (#eq? @parameters1 \"(x: i32, y: i32)\") \
            return_type: (primitive_type) @return_type6 (#eq? @return_type6 \"i32\") \
            body: (block (expression_statement (return_expression (binary_expression \
            left: (identifier) @left8 (#eq? @left8 \"x\") \
            right: (identifier) @right9 (#eq? @right9 \"y\"))))) \
            @body7 (#eq? @body7 \"{ return x + y; }\")) @match)"
            .to_string())
    );
}

#[test]
fn multi_line_body_is_not_bound_to_its_text() {
    assert_eq!(
        generalize("fn f() {\n    1\n}", tree_sitter_rust::language()),
        Ok("((function_item name: (identifier) @name0 (#eq? @name0 \"f\") \
            parameters: (parameters) @parameters1 (#eq? @parameters1 \"()\") \
            body: (block (integer_literal)) @body2) @match)"
            .to_string())
    );
}

#[test]
fn single_token_is_not_bound_to_its_text() {
    assert_eq!(
        generalize("foo", tree_sitter_rust::language()),
        Ok("((ERROR (identifier)) @match)".to_string())
    );
}

#[test]
fn empty_snippet_gives_no_pattern() {
    assert_eq!(generalize("", tree_sitter_rust::language()), Err(SearchError::NoPattern));
    assert_eq!(
        compile_keyword("", tree_sitter_rust::language()).err(),
        Some(SearchError::NoPattern)
    );
}

#[test]
fn unknown_kind_does_not_compile() {
    assert_eq!(
        compile_pattern("((nonsense_kind) @x)", tree_sitter_rust::language()).err(),
        Some(SearchError::QueryCompile {
            row: 0,
            column: 2,
            message: "nonsense_kind".to_string()
        })
    );
}

#[test]
fn quoted_text_in_a_snippet_matches_itself() {
    let snippet = "fn f() { g(\"a\\\\b\") }";
    let files = vec![
        load("same.rs", "fn f() { g(\"a\\\\b\") }\n"),
        load("other.rs", "fn f() { g(\"a\\\\c\") }\n"),
    ];
    let found = lines(snippet, &files);
    assert!(!found.is_empty());
    assert!(found.iter().all(|line| line.starts_with("same.rs:1:")));
    assert_eq!(found[0], "same.rs:1:1");
}

#[test]
fn pattern_that_does_not_end_in_a_bracket_is_refused() {
    assert_eq!(
        compile_pattern("(identifier) @x", tree_sitter_rust::language()).err(),
        Some(SearchError::QueryCompile {
            row: 0,
            column: 0,
            message: "the pattern does not end in a closing bracket".to_string()
        })
    );
    assert!(matches!(
        compile_pattern("(nonsense", tree_sitter_rust::language()),
        Err(SearchError::QueryCompile { .. })
    ));
    assert!(matches!(
        compile_pattern("", tree_sitter_rust::language()),
        Err(SearchError::QueryCompile { .. })
    ));
    assert!(compile_pattern("((identifier) @x)", tree_sitter_rust::language()).is_ok());
}

#[test]
fn empty_snippet_gives_no_hits_whatever_the_files_hold() {
    let files = vec![load("a.rs", "fn f() {}\n"), load("b.rs", "fn g() {}\n")];
    assert_eq!(search_keyword("", tree_sitter_rust::language(), &files), Ok(Vec::new()));
    assert_eq!(search_keyword("", tree_sitter_rust::language(), &Vec::new()), Ok(Vec::new()));
}

#[test]
fn search_by_keyword_gives_the_lines_of_the_query() {
    let files = vec![load("c.rs", "fn f() { 1 }\n"), load("d.rs", "fn f() { 2 }\n")];
    assert_eq!(
        search_keyword("fn f() { 1 }", tree_sitter_rust::language(), &files),
        Ok(lines("fn f() { 1 }", &files))
    );
    assert_eq!(
        search_keyword("fn f() { 1 }", tree_sitter_rust::language(), &files),
        Ok(vec![
            "c.rs:1:1".to_string(),
            "c.rs:1:4".to_string(),
            "c.rs:1:5".to_string(),
            "c.rs:1:8".to_string()
        ])
    );
}

#[test]
fn later_top_level_nodes_of_the_snippet_do_not_count() {
    let files = vec![load("c.rs", "fn f() {}\nfn g() {}\n"), load("d.rs", "fn g() {}\n")];
    let one = search_keyword("fn f() {}", tree_sitter_rust::language(), &files);
    let two = search_keyword("fn f() {}\nfn g() {}", tree_sitter_rust::language(), &files);
    assert_eq!(one, two);
    assert_eq!(one.map(|found| found.len()), Ok(4));
}

#[test]
fn plan_ends_the_search_without_a_pattern() {
    assert!(matches!(
        plan(compile_keyword("", tree_sitter_rust::language())),
        Ok(Plan::Done(found)) if found.is_empty()
    ));
    assert!(matches!(
        plan(compile_keyword("fn f() {}", tree_sitter_rust::language())),
        Ok(Plan::Match(_))
    ));
    assert!(matches!(
        plan(compile_pattern("((nonsense_kind) @x)", tree_sitter_rust::language())),
        Err(SearchError::QueryCompile { .. })
    ));
}

#[test]
fn repeated_field_names_compile() {
    assert!(compile_keyword(ADD, tree_sitter_rust::language()).is_ok());
    assert!(compile_keyword("fn f(a: u8, b: u8, c: u8) {}", tree_sitter_rust::language()).is_ok());
}

#[test]
fn same_names_match_and_other_names_do_not() {
    let files = vec![
        load("a.rs", "fn add(x: i32, y: i32) -> i32 { return x + y; }\n"),
        load("b.rs", "// sum\nfn sum(p: i32, q: i32) -> i32 { return p + q; }\n"),
    ];
    assert_eq!(
        lines(ADD, &files),
        vec![
            "a.rs:1:1", "a.rs:1:4", "a.rs:1:7", "a.rs:1:8", "a.rs:1:11", "a.rs:1:16",
            "a.rs:1:19", "a.rs:1:27", "a.rs:1:31", "a.rs:1:40", "a.rs:1:44"
        ]
    );
    assert_eq!(
        lines("fn sum(p: i32, q: i32) -> i32 { return p + q; }", &files)
            .first()
            .map(|s| s.as_str()),
        Some("b.rs:2:1")
    );
}

#[test]
fn multi_line_bodies_of_one_shape_both_match() {
    let files = vec![
        load("c.rs", "fn f() {\n    1\n}\n"),
        load("d.rs", "\n  fn f() {\n    2\n}\n"),
    ];
    assert_eq!(
        lines("fn f() {\n    1\n}", &files),
        vec![
            "c.rs:1:1", "c.rs:1:4", "c.rs:1:5", "c.rs:1:8", "d.rs:2:3", "d.rs:2:6", "d.rs:2:7",
            "d.rs:2:10"
        ]
    );
}

#[test]
fn identifiers_without_a_field_match_any_name() {
    let files = vec![
        load("x.rs", "fn f() {\n    [x, y]\n}\n"),
        load("p.rs", "fn f() {\n    [p, q]\n}\n"),
        load("g.rs", "fn g() {\n    [x, y]\n}\n"),
        load("one.rs", "fn f() {\n    [x]\n}\n"),
    ];
    assert_eq!(
        generalize("fn f() {\n    [a, b]\n}", tree_sitter_rust::language()),
        Ok("((function_item name: (identifier) @name0 (#eq? @name0 \"f\") \
            parameters: (parameters) @parameters1 (#eq? @parameters1 \"()\") \
            body: (block (array_expression (identifier) (identifier))) @body2) @match)"
            .to_string())
    );
    assert_eq!(
        lines("fn f() {\n    [a, b]\n}", &files),
        vec![
            "x.rs:1:1", "x.rs:1:4", "x.rs:1:5", "x.rs:1:8", "p.rs:1:1", "p.rs:1:4", "p.rs:1:5",
            "p.rs:1:8"
        ]
    );
}

#[test]
fn single_line_bodies_of_other_text_do_not_match() {
    let files = vec![load("c.rs", "fn f() { 1 }\n"), load("d.rs", "fn f() { 2 }\n")];
    assert_eq!(
        lines("fn f() { 1 }", &files),
        vec!["c.rs:1:1", "c.rs:1:4", "c.rs:1:5", "c.rs:1:8"]
    );
}

#[test]
fn each_match_in_a_file_is_reported() {
    let files = vec![load("e.rs", "fn f() { 1 }\nfn g() { 1 }\nfn f() { 1 }\n")];
    assert_eq!(
        lines("fn f() { 1 }", &files),
        vec![
            "e.rs:1:1", "e.rs:1:4", "e.rs:1:5", "e.rs:1:8", "e.rs:3:1", "e.rs:3:4", "e.rs:3:5",
            "e.rs:3:8"
        ]
    );
}

#[test]
fn no_files_no_hits() {
    let files: Vec<LoadedFile> = Vec::new();
    assert_eq!(lines(ADD, &files), Vec::<String>::new());
}

#[test]
fn files_without_a_match_give_no_hits() {
    let files = vec![load("a.rs", "struct S;\n"), load("b.rs", "")];
    assert_eq!(lines(ADD, &files), Vec::<String>::new());
}

#[test]
fn searching_twice_gives_the_same_hits() {
    let files = vec![
        load("a.rs", "fn add(x: i32, y: i32) -> i32 { return x + y; }\n"),
        load("c.rs", "fn f() {\n    1\n}\n"),
    ];
    let first = lines(ADD, &files);
    let second = lines(ADD, &files);
    assert_eq!(first.len(), 11);
    assert_eq!(first, second);
}

#[test]
fn hits_carry_path_row_and_column() {
    let query = compile_keyword("fn f() { 1 }", tree_sitter_rust::language()).unwrap();
    let file = load("dir/e.rs", "\n\n    fn f() { 1 }\n");
    let hits = match_file(&query, &file);
    assert_eq!(hits.len(), 4);
    assert_eq!(hits[0], MatchHit { path: "dir/e.rs".to_string(), row: 3, column: 5 });
    assert_eq!(hits[0].render(), "dir/e.rs:3:5");
    assert_eq!(search_hits(&query, &vec![file]), hits);
}

#[test]
fn bytes_shorter_than_the_tree_do_not_stop_the_search() {
    let query = compile_keyword("fn f() { 1 }", tree_sitter_rust::language()).unwrap();
    let mut file = load("e.rs", "fn f() { 1 }\n");
    file.bytes.truncate(3);
    assert_eq!(match_file(&query, &file), Vec::<MatchHit>::new());
}

#[test]
fn shards_searched_apart_give_the_hits_of_the_whole() {
    let sources = [
        ("a.rs", "fn f() { 1 }\n"),
        ("b.rs", "fn g() { 1 }\n"),
        ("c.rs", "\nfn f() { 1 }\n"),
        ("d.rs", "fn f() { 1 }\nfn f() { 1 }\n"),
        ("e.rs", "  fn f() { 1 }\n"),
    ];
    let whole: Vec<LoadedFile> = sources.iter().map(|(p, s)| load(p, s)).collect();
    let query = compile_keyword("fn f() { 1 }", tree_sitter_rust::language()).unwrap();
    let expected = search(&query, &whole);
    assert_eq!(expected.len(), 20);
    let shards = partition(whole, 4);
    assert_eq!(shards.iter().map(|s| s.len()).collect::<Vec<usize>>(), vec![2, 2, 1]);
    let parts: Vec<Vec<String>> = shards.iter().map(|shard| search(&query, shard)).collect();
    assert_eq!(merge(parts), expected);
}

#[test]
fn table_holds_each_path_once() {
    let language = tree_sitter_rust::language();
    let mut table = FileTable::new();
    assert_eq!(table.len(), 0);
    table.insert(parse_file("a.rs".to_string(), "fn a() {}", language).unwrap());
    table.insert(parse_file("b.rs".to_string(), "fn b() {}", language).unwrap());
    table.insert(parse_file("a.rs".to_string(), "struct A;", language).unwrap());
    assert_eq!(table.len(), 2);
    assert_eq!(table.position(&"a.rs".to_string()), Some(0));
    assert_eq!(table.position(&"b.rs".to_string()), Some(1));
    assert_eq!(table.position(&"c.rs".to_string()), None);
    let files = table.into_files();
    assert_eq!(files[0].path, "a.rs");
    assert_eq!(files[0].tree.root_node().to_sexp(), "(source_file (struct_item name: (type_identifier)))");
    assert_eq!(files[1].path, "b.rs");
}

#[test]
fn table_of_files_keeps_the_last_tree_of_a_path() {
    let language = tree_sitter_rust::language();
    let files = vec![
        parse_file("a.rs".to_string(), "fn a() {}", language).unwrap(),
        parse_file("b.rs".to_string(), "fn b() {}", language).unwrap(),
        parse_file("a.rs".to_string(), "struct A;", language).unwrap(),
        parse_file("c.rs".to_string(), "", language).unwrap(),
    ];
    let table = FileTable::from_files(files);
    assert_eq!(table.len(), 3);
    let files = table.into_files();
    let paths: Vec<&str> = files.iter().map(|f| f.path.as_str()).collect();
    assert_eq!(paths, vec!["a.rs", "b.rs", "c.rs"]);
    assert_eq!(files[0].tree.root_node().kind(), "source_file");
    assert_eq!(files[0].tree.root_node().child(0).unwrap().kind(), "struct_item");
}

#[test]
fn parsed_file_keeps_its_path() {
    let parsed = parse_file("x/y.rs".to_string(), "fn y() {}", tree_sitter_rust::language()).unwrap();
    assert_eq!(parsed.path, "x/y.rs");
    assert_eq!(parsed.tree.root_node().child_count(), 1);
}

#[test]
fn lift_copies_the_tree_below_a_node() {
    let source = "fn f() {}";
    let parsed = parse_file("a.rs".to_string(), source, tree_sitter_rust::language()).unwrap();
    let first = parsed.tree.root_node().child(0).unwrap();
    let copy = lift(&first, Some("item".to_string()), source.as_bytes(), usize::MAX).unwrap();
    assert_eq!(copy.kind, "function_item");
    assert!(copy.named);
    assert_eq!(copy.field, Some("item".to_string()));
    assert_eq!(copy.text, "fn f() {}");
    let seen: Vec<(&str, bool, Option<&str>, &str, usize)> = copy
        .children
        .iter()
        .map(|c| (c.kind.as_str(), c.named, c.field.as_deref(), c.text.as_str(), c.children.len()))
        .collect();
    assert_eq!(
        seen,
        vec![
            ("fn", false, None, "fn", 0),
            ("identifier", true, Some("name"), "f", 0),
            ("parameters", true, Some("parameters"), "()", 2),
            ("block", true, Some("body"), "{}", 2),
        ]
    );
    let brackets: Vec<(&str, bool, &str)> = copy.children[2]
        .children
        .iter()
        .map(|c| (c.kind.as_str(), c.named, c.text.as_str()))
        .collect();
    assert_eq!(brackets, vec![("(", false, "("), (")", false, ")")]);
}

#[test]
fn lift_goes_no_deeper_than_its_levels() {
    let source = "fn f() {}";
    let parsed = parse_file("a.rs".to_string(), source, tree_sitter_rust::language()).unwrap();
    let first = parsed.tree.root_node().child(0).unwrap();
    assert!(lift(&first, None, source.as_bytes(), 0).is_none());
    assert!(lift(&first, None, source.as_bytes(), 1).is_none());
    assert!(lift(&first, None, source.as_bytes(), 2).is_none());
    assert!(lift(&first, None, source.as_bytes(), 3).is_some());
    let name = first.child(1).unwrap();
    assert!(lift(&name, None, source.as_bytes(), 0).is_none());
    let leaf = lift(&name, None, source.as_bytes(), 1).unwrap();
    assert_eq!(leaf.kind, "identifier");
    assert_eq!(leaf.text, "f");
    assert!(leaf.children.is_empty());
}

#[test]
fn lift_needs_the_text_of_every_node() {
    let source = "fn f() {}";
    let parsed = parse_file("a.rs".to_string(), source, tree_sitter_rust::language()).unwrap();
    let first = parsed.tree.root_node().child(0).unwrap();
    assert!(lift(&first, None, &source.as_bytes()[..8], usize::MAX).is_none());
    assert!(lift(&first, None, b"fn f() {\xff", usize::MAX).is_none());
    let name = first.child(1).unwrap();
    assert!(lift(&name, None, &source.as_bytes()[..4], usize::MAX).is_some());
}

#[test]
fn node_text_is_the_stretch_of_the_source() {
    let source = "fn caf\u{e9}() {}";
    let parsed = parse_file("a.rs".to_string(), source, tree_sitter_rust::language()).unwrap();
    let first = parsed.tree.root_node().child(0).unwrap();
    let name = first.child(1).unwrap();
    assert_eq!(get_node_text(&first, source.as_bytes()), Some(source.to_string()));
    assert_eq!(get_node_text(&name, source.as_bytes()), Some("caf\u{e9}".to_string()));
    assert_eq!(get_node_text(&name, b"fn other() {}"), Some("other".to_string()));
    assert_eq!(get_node_text(&name, &source.as_bytes()[..7]), None);
    assert_eq!(get_node_text(&name, b"fn caf\xff\xff() {}"), None);
    assert_eq!(get_node_text(&name, b""), None);
}

#[test]
fn pattern_of_a_tree_is_that_of_its_first_top_level_node() {
    let language = tree_sitter_rust::language();
    let snippet = "fn f() {}\nfn g() {}";
    let parsed = parse_file("snippet".to_string(), snippet, language).unwrap();
    assert_eq!(
        pattern_of_tree(&parsed.tree, snippet),
        Ok("((function_item name: (identifier) @name0 (#eq? @name0 \"f\") \
            parameters: (parameters) @parameters1 (#eq? @parameters1 \"()\") \
            body: (block) @body2 (#eq? @body2 \"{}\")) @match)"
            .to_string())
    );
    assert_eq!(pattern_of_tree(&parsed.tree, snippet), generalize(snippet, language));
    let empty = parse_file("empty".to_string(), "", language).unwrap();
    assert_eq!(pattern_of_tree(&empty.tree, ""), Err(SearchError::NoPattern));
    assert_eq!(pattern_of_tree(&parsed.tree, "fn"), Err(SearchError::NoPattern));
}

#[test]
fn one_parameter_function_generalizes_in_document_order() {
    assert_eq!(
        generalize("fn f(a: u8) {}", tree_sitter_rust::language()),
        Ok("((function_item name: (identifier) @name0 (#eq? @name0 \"f\") \
            parameters: (parameters (parameter pattern: (identifier) @pattern2 \
            (#eq? @pattern2 \"a\") type: (primitive_type) @type3 (#eq? @type3 \"u8\"))) \
            @parameters1 (#eq? @parameters1 \"(a: u8)\") \
            body: (block) @body4 (#eq? @body4 \"{}\")) @match)"
            .to_string())
    );
}

#[test]
fn snippet_outside_ascii_is_searched_too() {
    let files = vec![
        load("a.rs", "fn caf\u{e9}() { 1 }\n"),
        load("b.rs", "fn cafe() { 1 }\n"),
    ];
    assert_eq!(
        lines("fn caf\u{e9}() { 1 }", &files),
        vec!["a.rs:1:1", "a.rs:1:4", "a.rs:1:9", "a.rs:1:12"]
    );
}
