use import_optimizer::model::OptimizationRules;
use import_optimizer::optimizer::TEST_INPUT;
use import_optimizer::{run_test_case, ImportOptimizer};

fn optimizer(sort: bool, dedup: bool, merge: bool) -> ImportOptimizer {
    let mut o = ImportOptimizer::new();
    o.set_rules(sort, dedup, merge);
    o
}

#[test]
fn test_basic_import_merging() {
    let mut optimizer = ImportOptimizer::new();
    optimizer.set_rules(true, true, true);

    let test_input = r#"import { mapState } from "vuex";
        import { mapActions } from "vuex";
        import request from "@/api/request.js";
        import Enum from "@/data/Enum";
        import utils from "@/utils/utils";
        import config from "@/data/config.json";"#;

    let result = optimizer.optimize(test_input);

    println!("=== 基础导入合并测试 ===");
    println!("输入:\n{}", test_input);
    println!("\n输出:\n{}", result);

    assert!(result.contains("mapActions, mapState"), "应该合并 vuex 的命名导入");

    assert!(result.contains("utils from"), "应该保留 utils");
}

#[test]
fn new_has_all_rules_off() {
    let o = ImportOptimizer::new();
    assert_eq!(
        o.rules,
        OptimizationRules { sort_imports: false, remove_duplicates: false, merge_imports: false }
    );
}

#[test]
fn set_rules_sets_each_flag() {
    let mut o = ImportOptimizer::new();
    o.set_rules(true, false, true);
    assert!(o.rules.sort_imports);
    assert!(!o.rules.remove_duplicates);
    assert!(o.rules.merge_imports);
    o.set_rules(false, true, false);
    assert!(!o.rules.sort_imports);
    assert!(o.rules.remove_duplicates);
    assert!(!o.rules.merge_imports);
}

#[test]
fn merge_and_sort_whole_output() {
    let out = optimizer(true, true, true).optimize(TEST_INPUT);
    assert_eq!(
        out,
        "import request from '@/api/request.js';\n\
         import Enum from '@/data/Enum';\n\
         import config from '@/data/config.json';\n\
         import utils from '@/utils/utils';\n\
         import { mapActions, mapState } from 'vuex';"
    );
}

#[test]
fn merge_unions_named_bindings_of_one_module() {
    let src = "import { mapState } from \"vuex\";\nimport { mapActions } from \"vuex\";";
    let out = optimizer(true, false, true).optimize(src);
    assert_eq!(out, "import { mapActions, mapState } from 'vuex';");
}

#[test]
fn merge_without_sort_keeps_first_seen_order() {
    let src = "import { b } from 'y';\nimport { z } from 'x';\nimport { a } from 'y';";
    let out = optimizer(false, false, true).optimize(src);
    assert_eq!(out, "import { b, a } from 'y';\nimport z from 'x';");
}

#[test]
fn merge_keeps_first_default_and_first_alias() {
    let src = "import A, { x as y } from 'm';\nimport B, { x as z, w } from 'm';";
    let out = optimizer(false, false, true).optimize(src);
    assert_eq!(out, "import A, { x as y, w } from 'm';");
}

#[test]
fn merge_keeps_distinct_sources_apart() {
    let src = "import utils from \"@/utils/utils\";\nimport utils2 from \"@/utils/utils2\";";
    let out = optimizer(true, true, true).optimize(src);
    assert_eq!(out, "import utils from '@/utils/utils';\nimport utils2 from '@/utils/utils2';");
}

#[test]
fn identity_without_import_lines() {
    for src in ["", "\n", "const x = 1;\n", "a\r\nb\r\n\r\n", "  \n\nfunction f() {}\n// done\n"] {
        for bits in 0..8 {
            let o = optimizer(bits & 1 != 0, bits & 2 != 0, bits & 4 != 0);
            assert_eq!(o.optimize(src), src);
        }
    }
}

#[test]
fn identity_when_no_import_line_can_be_read() {
    let src = "import \"side-effect\";\nimport x;\nlet y = 2;\n";
    assert_eq!(optimizer(true, true, true).optimize(src), src);
}

#[test]
fn dedup_only_collapses_identical_lines() {
    let src = "import a from 'x';\nimport a from 'x';\nimport b from 'x';";
    let out = optimizer(false, true, false).optimize(src);
    assert_eq!(out, "import a from 'x';\nimport b from 'x';");
}

#[test]
fn dedup_compares_lines_without_outer_white_space() {
    let src = "import a from 'x';\n   import a from 'x';  \nimport a from \"x\";";
    let out = optimizer(false, true, false).optimize(src);
    assert_eq!(out, "import a from 'x';\nimport a from 'x';");
}

#[test]
fn no_rule_keeps_every_line() {
    let src = "import a from 'x';\nimport a from 'x';";
    let out = optimizer(false, false, false).optimize(src);
    assert_eq!(out, "import a from 'x';\nimport a from 'x';");
}

#[test]
fn sort_only_orders_by_source_and_is_stable() {
    let src = "import z from 'b';\nimport y from 'a';\nimport x from 'b';\nimport w from 'B';";
    let out = optimizer(true, false, false).optimize(src);
    assert_eq!(
        out,
        "import w from 'B';\nimport y from 'a';\nimport z from 'b';\nimport x from 'b';"
    );
}

#[test]
fn sort_puts_a_prefix_first() {
    let src = "import b from 'ab';\nimport a from 'a';\nimport c from 'aa';";
    let out = optimizer(true, false, false).optimize(src);
    assert_eq!(out, "import a from 'a';\nimport c from 'aa';\nimport b from 'ab';");
}

#[test]
fn namespace_round_trip() {
    let o = optimizer(true, true, true);
    let once = o.optimize("import * as NS from \"x\";");
    assert_eq!(once, "import * as NS from 'x';");
    assert_eq!(o.optimize(&once), once);
}

#[test]
fn trailing_body_is_untouched() {
    let src = "import b from 'b';\n\nimport a from 'a';\n\n\nfunction f() {\n\n  return 1;\n}\nimport late from 'late';\n";
    let out = optimizer(false, false, false).optimize(src);
    assert_eq!(
        out,
        "import b from 'b';\nimport a from 'a';\nimport late from 'late';\n\nfunction f() {\n\n  return 1;\n}\nimport late from 'late';"
    );
}

#[test]
fn unreadable_import_line_starts_the_trailing_body() {
    let src = "import a from 'a';\nimport \"polyfill\";\nimport b from 'b';\nrun();";
    let out = optimizer(false, false, false).optimize(src);
    assert_eq!(
        out,
        "import a from 'a';\nimport b from 'b';\n\nimport \"polyfill\";\nimport b from 'b';\nrun();"
    );
}

#[test]
fn only_imports_gives_no_separator() {
    let out = optimizer(false, false, false).optimize("\n\nimport a from 'a';\n\n");
    assert_eq!(out, "import a from 'a';");
}

#[test]
fn empty_braces_give_no_line() {
    let out = optimizer(false, false, false).optimize("import {} from 'a';\nrest();");
    assert_eq!(out, "rest();");
}

#[test]
fn carriage_returns_before_line_feeds_are_dropped() {
    let out = optimizer(false, false, false).optimize("import a from 'a';\r\nlet x;\r\nlet y;\r");
    assert_eq!(out, "import a from 'a';\n\nlet x;\nlet y;\r");
}

#[test]
fn run_test_case_reports_input_and_result() {
    let report = run_test_case();
    let result = optimizer(true, true, true).optimize(TEST_INPUT);
    assert_eq!(report, format!("测试输入:\n{}\n\n优化结果:\n{}", TEST_INPUT, result));
    assert!(report.contains("import { mapActions, mapState } from 'vuex';"));
}

#[test]
fn test_input_is_the_six_line_sample() {
    assert_eq!(
        TEST_INPUT,
        r#"import { mapState } from "vuex";
    import { mapActions } from "vuex";
    import request from "@/api/request.js";
    import Enum from "@/data/Enum";
    import utils from "@/utils/utils";
    import config from "@/data/config.json";"#
    );
}
