use import_optimizer::model::{ImportInfo, NamedImport};
use import_optimizer::parse::{
    extract_source_string, find_as, parse_import_clause, parse_import_line, parse_imports,
    parse_named_imports, split_chars,
};

fn cs(s: &str) -> Vec<char> {
    s.chars().collect()
}

fn st(v: &[char]) -> String {
    v.iter().collect()
}

fn named(name: &str, alias: Option<&str>) -> NamedImport {
    NamedImport { name: cs(name), alias: alias.map(cs) }
}

fn info(
    line: &str,
    source: &str,
    default: Option<&str>,
    names: Vec<NamedImport>,
    namespace: Option<&str>,
    n: usize,
) -> ImportInfo {
    ImportInfo {
        original_line: cs(line),
        source: cs(source),
        default_import: default.map(cs),
        named_imports: names,
        namespace_import: namespace.map(cs),
        line_number: n,
    }
}

#[test]
fn split_chars_gives_one_more_piece_than_separators() {
    let pieces = |s: &str| -> Vec<String> { split_chars(&cs(s), ',').iter().map(|p| st(p)).collect() };
    assert_eq!(pieces(""), vec![""]);
    assert_eq!(pieces("a"), vec!["a"]);
    assert_eq!(pieces("a,b"), vec!["a", "b"]);
    assert_eq!(pieces("a,"), vec!["a", ""]);
    assert_eq!(pieces(",a,,b,"), vec!["", "a", "", "b", ""]);
    for s in ["", ",", "a, b ,c", ",,", "x"] {
        let want: Vec<String> = s.split(',').map(|p| p.to_string()).collect();
        assert_eq!(pieces(s), want);
    }
}

#[test]
fn find_as_wants_a_whole_word() {
    assert_eq!(find_as(&cs("a as b")), Some(2));
    assert_eq!(find_as(&cs("* as NS")), Some(2));
    assert_eq!(find_as(&cs("*as NS")), Some(1));
    assert_eq!(find_as(&cs("as")), Some(0));
    assert_eq!(find_as(&cs("as b")), Some(0));
    assert_eq!(find_as(&cs("a as")), Some(2));
    assert_eq!(find_as(&cs("class as klass")), Some(6));
    assert_eq!(find_as(&cs("basic")), None);
    assert_eq!(find_as(&cs("alias")), None);
    assert_eq!(find_as(&cs("has")), None);
    assert_eq!(find_as(&cs("asset")), None);
    assert_eq!(find_as(&cs("a_as b")), None);
    assert_eq!(find_as(&cs("as$ as x")), Some(4));
    assert_eq!(find_as(&cs("éas")), None);
    assert_eq!(find_as(&cs("a")), None);
    assert_eq!(find_as(&cs("")), None);
}

#[test]
fn named_imports_with_and_without_alias() {
    assert_eq!(
        parse_named_imports(&cs(" mapState , mapActions as actions ")),
        vec![named("mapState", None), named("mapActions", Some("actions"))]
    );
}

#[test]
fn named_imports_pass_over_empty_items() {
    assert_eq!(parse_named_imports(&cs("")), vec![]);
    assert_eq!(parse_named_imports(&cs("  ")), vec![]);
    assert_eq!(parse_named_imports(&cs(",a, ,b,")), vec![named("a", None), named("b", None)]);
}

#[test]
fn named_imports_do_not_split_inside_a_name() {
    assert_eq!(
        parse_named_imports(&cs("basic, Dashboard, hasOwn as own, alias")),
        vec![
            named("basic", None),
            named("Dashboard", None),
            named("hasOwn", Some("own")),
            named("alias", None)
        ]
    );
}

#[test]
fn named_imports_without_a_name_are_passed_over() {
    assert_eq!(parse_named_imports(&cs("as b, c")), vec![named("c", None)]);
    assert_eq!(parse_named_imports(&cs("as")), vec![]);
}

#[test]
fn named_imports_keep_an_empty_alias_and_repeated_names() {
    assert_eq!(
        parse_named_imports(&cs("a as , a, a")),
        vec![named("a", Some("")), named("a", None), named("a", None)]
    );
}

#[test]
fn source_between_first_and_last_quote() {
    assert_eq!(st(&extract_source_string(&cs("\"vuex\";"))), "vuex");
    assert_eq!(st(&extract_source_string(&cs("'@/utils/utils'"))), "@/utils/utils");
    assert_eq!(st(&extract_source_string(&cs("'a\"b' ; // 'c'"))), "a\"b' ; // 'c");
    assert_eq!(st(&extract_source_string(&cs("x '' y"))), "");
    assert_eq!(st(&extract_source_string(&cs("\"a'"))), "a");
}

#[test]
fn source_without_a_pair_of_quotes() {
    assert_eq!(st(&extract_source_string(&cs("vuex;"))), "vuex");
    assert_eq!(st(&extract_source_string(&cs(" vuex ; rest;"))), "vuex");
    assert_eq!(st(&extract_source_string(&cs("'vuex;"))), "vuex");
    assert_eq!(st(&extract_source_string(&cs("a'b;"))), "a'b");
    assert_eq!(st(&extract_source_string(&cs("; ;"))), "");
    assert_eq!(st(&extract_source_string(&cs(""))), "");
    assert_eq!(st(&extract_source_string(&cs("a; b"))), "a");
}

#[test]
fn clause_namespace() {
    assert_eq!(parse_import_clause(&cs(" * as NS ")), Some((None, vec![], Some(cs("NS")))));
    assert_eq!(parse_import_clause(&cs("*as NS")), Some((None, vec![], Some(cs("NS")))));
    assert_eq!(parse_import_clause(&cs("* as")), Some((None, vec![], Some(cs("")))));
}

#[test]
fn clause_pure_named() {
    assert_eq!(
        parse_import_clause(&cs("{ a, b as c }")),
        Some((None, vec![named("a", None), named("b", Some("c"))], None))
    );
    assert_eq!(parse_import_clause(&cs("{}")), Some((None, vec![], None)));
    assert_eq!(parse_import_clause(&cs("{ }")), Some((None, vec![], None)));
}

#[test]
fn clause_mixed() {
    assert_eq!(
        parse_import_clause(&cs("React, { useState }")),
        Some((Some(cs("React")), vec![named("useState", None)], None))
    );
    assert_eq!(
        parse_import_clause(&cs("React ,, { a } tail")),
        Some((Some(cs("React ")), vec![named("a", None)], None))
    );
    assert_eq!(
        parse_import_clause(&cs("{ a } tail")),
        Some((None, vec![named("a", None)], None))
    );
    assert_eq!(
        parse_import_clause(&cs("* , { a }")),
        Some((Some(cs("* ")), vec![named("a", None)], None))
    );
    assert_eq!(
        parse_import_clause(&cs("x { a } { b }")),
        Some((Some(cs("x")), vec![named("a } { b", None)], None))
    );
}

#[test]
fn clause_pure_default() {
    assert_eq!(parse_import_clause(&cs(" utils ")), Some((Some(cs("utils")), vec![], None)));
    assert_eq!(parse_import_clause(&cs("a, b")), Some((Some(cs("a, b")), vec![], None)));
    assert_eq!(parse_import_clause(&cs("basic as x")), Some((Some(cs("basic as x")), vec![], None)));
}

#[test]
fn clause_unrecognised() {
    assert_eq!(parse_import_clause(&cs("")), None);
    assert_eq!(parse_import_clause(&cs("   ")), None);
    assert_eq!(parse_import_clause(&cs("*")), None);
    assert_eq!(parse_import_clause(&cs("* NS")), None);
    assert_eq!(parse_import_clause(&cs("*alias")), None);
    assert_eq!(parse_import_clause(&cs("d, * as NS")), None);
    assert_eq!(parse_import_clause(&cs("{ a")), None);
    assert_eq!(parse_import_clause(&cs("a }")), None);
    assert_eq!(parse_import_clause(&cs("} a {")), None);
    assert_eq!(parse_import_clause(&cs("a } b { c")), None);
}

#[test]
fn line_with_each_kind_of_clause() {
    assert_eq!(
        parse_import_line(&cs("import utils from \"@/utils/utils\";"), 4),
        Some(info("import utils from \"@/utils/utils\";", "@/utils/utils", Some("utils"), vec![], None, 4))
    );
    assert_eq!(
        parse_import_line(&cs("import { mapState } from \"vuex\";"), 0),
        Some(info(
            "import { mapState } from \"vuex\";",
            "vuex",
            None,
            vec![named("mapState", None)],
            None,
            0
        ))
    );
    assert_eq!(
        parse_import_line(&cs("import * as NS from 'x'"), 7),
        Some(info("import * as NS from 'x'", "x", None, vec![], Some("NS"), 7))
    );
    assert_eq!(
        parse_import_line(&cs("import A, { b as c } from 'm';"), 1),
        Some(info("import A, { b as c } from 'm';", "m", Some("A"), vec![named("b", Some("c"))], None, 1))
    );
    assert_eq!(
        parse_import_line(&cs("import{a}from'm'"), 2),
        Some(info("import{a}from'm'", "m", None, vec![named("a", None)], None, 2))
    );
}

#[test]
fn line_splits_at_the_first_from() {
    assert_eq!(
        parse_import_line(&cs("import a from 'from/from';"), 0),
        Some(info("import a from 'from/from';", "from/from", Some("a"), vec![], None, 0))
    );
    assert_eq!(parse_import_line(&cs("import fromage from 'x';"), 0), None);
    assert_eq!(
        parse_import_line(&cs("import x fromage from 'y';"), 0),
        Some(info("import x fromage from 'y';", "y", Some("x"), vec![], None, 0))
    );
}

#[test]
fn line_that_is_not_read() {
    for line in [
        "",
        "const x = 1;",
        " import a from 'a';",
        "import 'side-effect';",
        "import a;",
        "import a from '';",
        "import a from ;",
        "import from 'a';",
        "import * from 'a';",
        "import } { from 'a';",
        "impor a from 'a';",
    ] {
        assert_eq!(parse_import_line(&cs(line), 0), None, "{:?}", line);
    }
}

#[test]
fn line_with_a_source_without_quotes() {
    assert_eq!(
        parse_import_line(&cs("import a from vuex;"), 3),
        Some(info("import a from vuex;", "vuex", Some("a"), vec![], None, 3))
    );
}

#[test]
fn imports_of_a_text_in_line_order() {
    let code = "  import a from 'a';\n\nimport 'x';\nlet y;\r\n\timport { b } from \"b\"  \nimport c";
    assert_eq!(
        parse_imports(&cs(code)),
        vec![
            info("import a from 'a';", "a", Some("a"), vec![], None, 0),
            info("import { b } from \"b\"", "b", None, vec![named("b", None)], None, 4),
        ]
    );
    assert_eq!(parse_imports(&cs("")), vec![]);
    assert_eq!(parse_imports(&cs("let x = 1;\n")), vec![]);
}
