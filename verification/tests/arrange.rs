use import_optimizer::dedup::dedup_and_sort;
use import_optimizer::format::{format_import_clause, format_imports};
use import_optimizer::merge::{group_imports, merge_imports, sorted_bindings, sorted_groups};
use import_optimizer::model::{
    copy_bindings, copy_opt_text, copy_text, ImportInfo, MergedImport, NamedImport,
};
use import_optimizer::ImportOptimizer;

fn cs(s: &str) -> Vec<char> {
    s.chars().collect()
}

fn st(v: &[char]) -> String {
    v.iter().collect()
}

fn named(name: &str, alias: Option<&str>) -> NamedImport {
    NamedImport { name: cs(name), alias: alias.map(cs) }
}

fn info(
    line: &str,
    source: &str,
    default: Option<&str>,
    names: Vec<NamedImport>,
    namespace: Option<&str>,
    n: usize,
) -> ImportInfo {
    ImportInfo {
        original_line: cs(line),
        source: cs(source),
        default_import: default.map(cs),
        named_imports: names,
        namespace_import: namespace.map(cs),
        line_number: n,
    }
}

fn group(
    source: &str,
    default: Option<&str>,
    names: Vec<NamedImport>,
    namespace: Option<&str>,
) -> MergedImport {
    MergedImport {
        source: cs(source),
        default_import: default.map(cs),
        named_imports: names,
        namespace_import: namespace.map(cs),
    }
}

#[test]
fn copies_are_equal() {
    assert_eq!(copy_text(&cs("abc")), cs("abc"));
    assert_eq!(copy_opt_text(&Some(cs("a"))), Some(cs("a")));
    assert_eq!(copy_opt_text(&None), None);
    let names = vec![named("a", None), named("b", Some("c"))];
    assert_eq!(copy_bindings(&names), names);
    assert_eq!(names[1].copy(), names[1]);
    let g = group("m", Some("d"), names.clone(), Some("ns"));
    assert_eq!(g.copy(), g);
    let i = info("line", "m", Some("d"), names.clone(), Some("ns"), 3);
    assert_eq!(i.to_merged(), g);
}

#[test]
fn group_imports_in_first_seen_order() {
    let imports = vec![
        info("1", "y", None, vec![named("b", None)], None, 0),
        info("2", "x", Some("X"), vec![], None, 1),
        info("3", "y", Some("Y"), vec![named("a", Some("q")), named("b", Some("r"))], None, 2),
        info("4", "x", Some("Z"), vec![], Some("N"), 3),
        info("5", "y", None, vec![], Some("M"), 4),
        info("6", "x", None, vec![], Some("O"), 5),
    ];
    assert_eq!(
        group_imports(&imports),
        vec![
            group("y", Some("Y"), vec![named("b", None), named("a", Some("q"))], Some("M")),
            group("x", Some("X"), vec![], Some("N")),
        ]
    );
    assert_eq!(merge_imports(&imports, false), group_imports(&imports));
    assert_eq!(group_imports(&vec![]), vec![]);
}

#[test]
fn group_imports_drops_a_repeated_name_within_one_declaration() {
    let imports = vec![info("1", "m", None, vec![named("a", Some("x")), named("a", None)], None, 0)];
    assert_eq!(group_imports(&imports), vec![group("m", None, vec![named("a", Some("x"))], None)]);
}

#[test]
fn merge_imports_sorts_groups_and_names() {
    let imports = vec![
        info("1", "vuex", None, vec![named("mapState", None)], None, 0),
        info("2", "@/u", Some("u"), vec![], None, 1),
        info("3", "vuex", None, vec![named("mapActions", None), named("Store", Some("S"))], None, 2),
        info("4", "Vue", Some("Vue"), vec![], None, 3),
    ];
    assert_eq!(
        merge_imports(&imports, true),
        vec![
            group("@/u", Some("u"), vec![], None),
            group("Vue", Some("Vue"), vec![], None),
            group(
                "vuex",
                None,
                vec![named("Store", Some("S")), named("mapActions", None), named("mapState", None)],
                None
            ),
        ]
    );
}

#[test]
fn sorted_bindings_is_stable() {
    let names = vec![named("b", Some("1")), named("a", None), named("b", Some("2")), named("B", None)];
    assert_eq!(
        sorted_bindings(&names),
        vec![named("B", None), named("a", None), named("b", Some("1")), named("b", Some("2"))]
    );
    assert_eq!(sorted_bindings(&vec![]), vec![]);
}

#[test]
fn sorted_groups_is_stable() {
    let gs = vec![
        group("b", Some("1"), vec![], None),
        group("a", Some("2"), vec![], None),
        group("b", Some("3"), vec![], None),
    ];
    assert_eq!(
        sorted_groups(&gs),
        vec![
            group("a", Some("2"), vec![], None),
            group("b", Some("1"), vec![], None),
            group("b", Some("3"), vec![], None),
        ]
    );
}

#[test]
fn dedup_and_sort_each_flag() {
    let imports = vec![
        info("import b from 'b'", "b", Some("b"), vec![], None, 0),
        info("import a from 'a'", "a", Some("a"), vec![], None, 1),
        info("  import b from 'b' ", "b", Some("b"), vec![], None, 2),
        info("import b2 from 'b'", "b", Some("b2"), vec![], None, 3),
    ];
    let b = group("b", Some("b"), vec![], None);
    let a = group("a", Some("a"), vec![], None);
    let b2 = group("b", Some("b2"), vec![], None);
    assert_eq!(dedup_and_sort(&imports, false, false), vec![b.clone(), a.clone(), b.clone(), b2.clone()]);
    assert_eq!(dedup_and_sort(&imports, true, false), vec![b.clone(), a.clone(), b2.clone()]);
    assert_eq!(dedup_and_sort(&imports, false, true), vec![a.clone(), b.clone(), b.clone(), b2.clone()]);
    assert_eq!(dedup_and_sort(&imports, true, true), vec![a, b, b2]);
    assert_eq!(dedup_and_sort(&vec![], true, true), vec![]);
}

#[test]
fn clause_of_each_combination() {
    let f = |g: MergedImport| st(&format_import_clause(&g));
    assert_eq!(f(group("m", None, vec![], None)), "");
    assert_eq!(f(group("m", Some("d"), vec![], None)), "d");
    assert_eq!(f(group("m", None, vec![], Some("ns"))), "* as ns");
    assert_eq!(f(group("m", None, vec![named("a", None)], None)), "a");
    assert_eq!(f(group("m", None, vec![named("a", Some("b"))], None)), "a as b");
    assert_eq!(
        f(group("m", None, vec![named("a", None), named("b", Some("c")), named("d", None)], None)),
        "{ a, b as c, d }"
    );
    assert_eq!(f(group("m", Some("d"), vec![], Some("ns"))), "d, * as ns");
    assert_eq!(f(group("m", Some("d"), vec![named("a", None)], None)), "d, a");
    assert_eq!(
        f(group("m", Some("d"), vec![named("a", None), named("b", None)], Some("ns"))),
        "d, * as ns, { a, b }"
    );
    assert_eq!(f(group("m", Some(""), vec![], None)), "");
    assert_eq!(f(group("m", Some(""), vec![named("a", None)], None)), ", a");
}

#[test]
fn lines_of_the_groups() {
    let gs = vec![
        group("vuex", None, vec![named("a", None), named("b", None)], None),
        group("empty", None, vec![], None),
        group("@/x", Some("x"), vec![], None),
    ];
    assert_eq!(st(&format_imports(&gs)), "import { a, b } from 'vuex';\nimport x from '@/x';");
    assert_eq!(st(&format_imports(&vec![])), "");
    assert_eq!(st(&format_imports(&vec![group("e", None, vec![], None)])), "");
}

#[test]
fn generate_without_imports_returns_the_text() {
    let o = ImportOptimizer::new();
    assert_eq!(st(&o.generate_optimized_code(&cs("a\r\nb\n"), &vec![])), "a\r\nb\n");
}

#[test]
fn generate_goes_by_the_line_numbers_given() {
    let mut o = ImportOptimizer::new();
    let code = cs("one\n\ntwo\nthree\n\nfour\n");
    let imports = vec![
        info("x", "m", Some("d"), vec![], None, 0),
        info("y", "n", Some("e"), vec![], None, 2),
    ];
    assert_eq!(
        st(&o.generate_optimized_code(&code, &imports)),
        "import d from 'm';\nimport e from 'n';\n\nthree\n\nfour"
    );
    o.set_rules(true, false, true);
    let all = vec![
        info("x", "m", Some("d"), vec![], None, 0),
        info("y", "a", Some("e"), vec![], None, 2),
        info("y", "a", None, vec![named("z", None)], None, 3),
        info("y", "a", None, vec![], None, 5),
    ];
    assert_eq!(st(&o.generate_optimized_code(&code, &all)), "import e, z from 'a';\nimport d from 'm';");
}

#[test]
fn generate_with_an_empty_block_writes_the_body_only() {
    let o = ImportOptimizer::new();
    let code = cs("import {} from 'm';\n\nbody();\n\nmore();");
    let imports = vec![info("import {} from 'm';", "m", None, vec![], None, 0)];
    assert_eq!(st(&o.generate_optimized_code(&code, &imports)), "body();\n\nmore();");
    let only = cs("import {} from 'm';");
    assert_eq!(st(&o.generate_optimized_code(&only, &imports)), "");
}
