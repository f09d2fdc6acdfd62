//! The optimizer: its rules, and the rewriting of a source text.

use vstd::prelude::*;
use crate::chars::{is_blank, trim_chars};
use crate::dedup::{dedup_and_sort, plain_spec};
use crate::format::{block_text, format_imports};
use crate::lines::{append_chars, join, join_texts, lines, split_lines, texts};
use crate::merge::{merge_imports, merge_spec};
use crate::model::{copy_text, declarations, Declaration, Group, ImportInfo, OptimizationRules};
use crate::parse::{parse_imports, parse_text};
use crate::text::{chars_of, string_of};

verus! {

/// Rewrites the import lines at the head of a source text by its rules.
pub struct ImportOptimizer {
    pub rules: OptimizationRules,
}

/// Whether a declaration of `ds` was read from line `i`.
pub open spec fn is_import_line(ds: Seq<Declaration>, i: int) -> bool {
    exists|k: int| 0 <= k < ds.len() && (#[trigger] ds[k]).line_number == i
}

/// Whether line `i` of `ls` is neither blank nor the line of a declaration
/// of `ds`.
pub open spec fn is_content_line(ls: Seq<Seq<char>>, ds: Seq<Declaration>, i: int) -> bool {
    !is_import_line(ds, i) && !is_blank(ls[i])
}

/// The index of the first line of `ls`, from `i` on, that is neither blank
/// nor the line of a declaration of `ds`; the number of lines if there is
/// none.
pub open spec fn body_from(ls: Seq<Seq<char>>, ds: Seq<Declaration>, i: int) -> int
    decreases ls.len() - i,
{
    if i >= ls.len() {
        ls.len() as int
    } else if is_content_line(ls, ds, i) {
        i
    } else {
        body_from(ls, ds, i + 1)
    }
}

/// The lines of `ls` behind the import block: the first line that is
/// neither blank nor the line of a declaration of `ds`, and all that follow
/// it.
pub open spec fn trailing_body(ls: Seq<Seq<char>>, ds: Seq<Declaration>) -> Seq<Seq<char>> {
    ls.skip(body_from(ls, ds, 0))
}

/// The groups to write for the declarations `ds` under `rules`.
pub open spec fn arranged(rules: OptimizationRules, ds: Seq<Declaration>) -> Seq<Group> {
    if rules.merge_imports {
        merge_spec(ds, rules.sort_imports)
    } else {
        plain_spec(ds, rules.remove_duplicates, rules.sort_imports)
    }
}

/// The text that takes the place of `code`, whose declarations are `ds`.
///
/// Without a declaration it is `code` itself. Otherwise it is the import
/// block, then the lines of the trailing body, separated by line feeds; an
/// empty line stands between the two if both are there.
pub open spec fn generate_spec(rules: OptimizationRules, code: Seq<char>, ds: Seq<Declaration>) -> Seq<
    char,
> {
    let block = block_text(arranged(rules, ds));
    let body = trailing_body(lines(code), ds);
    if ds.len() == 0 {
        code
    } else if body.len() == 0 {
        block
    } else if block.len() == 0 {
        join(body, "\n"@)
    } else {
        block + "\n\n"@ + join(body, "\n"@)
    }
}

/// The text that `optimize` returns for `code` under `rules`.
pub open spec fn optimize_spec(rules: OptimizationRules, code: Seq<char>) -> Seq<char> {
    generate_spec(rules, code, parse_text(code))
}

/// Whether one of `imports` was read from line `line_num`.
fn read_from_line(imports: &Vec<ImportInfo>, line_num: usize) -> (r: bool)
    ensures
        r == is_import_line(declarations(imports@), line_num as int),
{
    let mut k: usize = 0;
    while k < imports.len()
        invariant
            k <= imports.len(),
            forall|j: int| 0 <= j < k ==> (#[trigger] declarations(imports@)[j]).line_number != line_num,
        decreases imports.len() - k,
    {
        if imports[k].line_number == line_num {
            assert(declarations(imports@)[k as int].line_number == line_num);
            return true;
        }
        k += 1;
    }
    false
}

impl ImportOptimizer {
    /// An optimizer that neither sorts, nor removes duplicates, nor merges.
    pub fn new() -> (r: Self)
        ensures
            r.rules == (OptimizationRules {
                sort_imports: false,
                remove_duplicates: false,
                merge_imports: false,
            }),
    {
        ImportOptimizer { rules: OptimizationRules::default() }
    }

    /// Sets the three rules.
    pub fn set_rules(&mut self, sort_imports: bool, remove_duplicates: bool, merge_imports: bool)
        ensures
            final(self).rules == (OptimizationRules { sort_imports, remove_duplicates, merge_imports }),
    {
        self.rules.sort_imports = sort_imports;
        self.rules.remove_duplicates = remove_duplicates;
        self.rules.merge_imports = merge_imports;
    }

    /// Rewrites the import lines at the head of `code`.
    ///
    /// Every line that, without white space at either end, can be read as
    /// an import line gives a declaration. The declarations are merged by
    /// module, or else, as the rules say, freed of repeated lines and sorted
    /// by module, and written as the import block. Behind it, after one
    /// empty line, follow the first line that is neither blank nor the line
    /// of a declaration and all lines behind that one, as they were. A text
    /// without a declaration is returned as it is.
    ///
    /// A line that begins with `import` and cannot be read is not lost: it
    /// counts as any other line of the text, so the body begins with it at
    /// the latest. An import line within the body gives a declaration as
    /// well, and stays where it is.
    pub fn optimize(&self, code: &str) -> (r: String)
        ensures
            r@ == optimize_spec(self.rules, code@),
    {
        let text = chars_of(code);
        let imports = parse_imports(&text);
        let out = self.generate_optimized_code(&text, &imports);
        string_of(&out)
    }

    /// Writes the import block for `imports` and, behind it, the trailing
    /// body of `original_code`.
    pub fn generate_optimized_code(&self, original_code: &Vec<char>, imports: &Vec<ImportInfo>) -> (r:
        Vec<char>)
        ensures
            r@ == generate_spec(self.rules, original_code@, declarations(imports@)),
    {
        if imports.len() == 0 {
            return copy_text(original_code);
        }
        let ghost ds = declarations(imports@);
        let ls = split_lines(original_code);
        let mut start: usize = 0;
        while start < ls.len() && (read_from_line(imports, start) || trim_chars(&ls[start]).len()
            == 0)
            invariant
                start <= ls.len(),
                ds == declarations(imports@),
                body_from(texts(ls@), ds, 0) == body_from(texts(ls@), ds, start as int),
            decreases ls.len() - start,
        {
            start += 1;
        }
        let mut other_lines: Vec<Vec<char>> = Vec::new();
        let mut i: usize = start;
        while i < ls.len()
            invariant
                start <= i <= ls.len(),
                other_lines.len() == i - start,
                forall|j: int| 0 <= j < i - start ==> other_lines@[j]@ == ls@[start + j]@,
            decreases ls.len() - i,
        {
            other_lines.push(copy_text(&ls[i]));
            i += 1;
        }
        assert(texts(other_lines@) =~= trailing_body(lines(original_code@), ds));

        let merged_imports = if self.rules.merge_imports {
            merge_imports(imports, self.rules.sort_imports)
        } else {
            dedup_and_sort(imports, self.rules.remove_duplicates, self.rules.sort_imports)
        };
        let optimized_imports = format_imports(&merged_imports);

        let mut result: Vec<char> = Vec::new();
        if optimized_imports.len() > 0 {
            append_chars(&mut result, &optimized_imports);
        }
        if other_lines.len() > 0 {
            if result.len() > 0 {
                append_chars(&mut result, &chars_of("\n\n"));
            }
            append_chars(&mut result, &join_texts(&other_lines, &chars_of("\n")));
        }
        assert(result@ =~= generate_spec(self.rules, original_code@, ds));
        result
    }
}

/// The source text that `run_test_case` rewrites.
pub const TEST_INPUT: &'static str =
    "import { mapState } from \"vuex\";\n    import { mapActions } from \"vuex\";\n    import request from \"@/api/request.js\";\n    import Enum from \"@/data/Enum\";\n    import utils from \"@/utils/utils\";\n    import config from \"@/data/config.json\";";

/// The rules with all three set.
pub open spec fn all_rules() -> OptimizationRules {
    OptimizationRules { sort_imports: true, remove_duplicates: true, merge_imports: true }
}

/// Rewrites `TEST_INPUT` with all three rules set, and reports the text and
/// what became of it.
pub fn run_test_case() -> (r: String)
    ensures
        r@ == "测试输入:\n"@ + TEST_INPUT@ + "\n\n优化结果:\n"@ + optimize_spec(
            all_rules(),
            TEST_INPUT@,
        ),
{
    let mut optimizer = ImportOptimizer::new();
    optimizer.set_rules(true, true, true);
    let result = optimizer.optimize(TEST_INPUT);
    let mut report = String::from_str("测试输入:\n");
    report.append(TEST_INPUT);
    report.append("\n\n优化结果:\n");
    report.append(result.as_str());
    report
}

} // verus!
