//! What holds of the optimizer on every input.

use vstd::prelude::*;
use crate::chars::{begins_with, trim};
use crate::dedup::{contents, has_line, line_key, unique_lines};
use crate::format::block_text;
use crate::lines::{join, lines};
use crate::merge::{
    absorb, distinct_sources, empty_group, group_of, has_source, lemma_all_named_distinct,
    lemma_distinct_sources_contains, lemma_distinct_sources_distinct, lemma_group_of_absent,
    lemma_sort_groups, merge_spec, merged, names, pairwise_distinct, sort_groups, sources,
    with_sorted_names,
};
use crate::model::{Declaration, OptimizationRules};
use crate::optimizer::{arranged, body_from, is_content_line, optimize_spec, trailing_body};
use crate::order::{ascending, before, lemma_lex_le_reflexive, sort_order};
use crate::parse::{declarations_upto, parse_text};

verus! {

/// A text without a declaration is returned as it is.
pub proof fn law_identity_without_declarations(rules: OptimizationRules, code: Seq<char>)
    requires
        parse_text(code).len() == 0,
    ensures
        optimize_spec(rules, code) == code,
{
}

proof fn lemma_no_import_no_declaration(ls: Seq<Seq<char>>, n: int)
    requires
        0 <= n <= ls.len(),
        forall|i: int| 0 <= i < ls.len() ==> !begins_with(trim(#[trigger] ls[i]), "import"@),
    ensures
        declarations_upto(ls, n).len() == 0,
    decreases n,
{
    if n > 0 {
        lemma_no_import_no_declaration(ls, n - 1);
        assert(!begins_with(trim(ls[n - 1]), "import"@));
    }
}

/// A text of which no line begins with `import`, white space before it
/// aside, is returned as it is, whatever the rules.
pub proof fn law_identity_without_import_lines(rules: OptimizationRules, code: Seq<char>)
    requires
        forall|i: int|
            0 <= i < lines(code).len() ==> !begins_with(trim(#[trigger] lines(code)[i]), "import"@),
    ensures
        optimize_spec(rules, code) == code,
{
    lemma_no_import_no_declaration(lines(code), lines(code).len() as int);
}

/// With the rule to sort, the groups that are written ascend by module,
/// merged or not.
pub proof fn law_sorted_by_source(rules: OptimizationRules, ds: Seq<Declaration>)
    requires
        rules.sort_imports,
    ensures
        ascending(sources(arranged(rules, ds))),
{
    if rules.merge_imports {
        let gs = sort_groups(merged(ds));
        lemma_sort_groups(merged(ds));
        assert(sources(arranged(rules, ds)) =~= sources(gs));
    } else {
        let kept = if rules.remove_duplicates {
            unique_lines(ds)
        } else {
            ds
        };
        lemma_sort_groups(contents(kept));
    }
}

/// Removing repeated lines keeps a declaration of every line.
pub proof fn law_unique_lines_keep_each_line(ds: Seq<Declaration>, key: Seq<char>)
    ensures
        has_line(unique_lines(ds), key) <==> has_line(ds, key),
    decreases ds.len(),
{
    if ds.len() > 0 {
        let front = ds.drop_last();
        let last = ds.last();
        law_unique_lines_keep_each_line(front, key);
        law_unique_lines_keep_each_line(front, line_key(last));
        let kept = unique_lines(ds);
        let kept_front = unique_lines(front);
        if has_line(kept, key) {
            let i = choose|i: int| 0 <= i < kept.len() && line_key(#[trigger] kept[i]) == key;
            if i < kept_front.len() {
                assert(line_key(kept_front[i]) == key);
                let j = choose|j: int| 0 <= j < front.len() && line_key(#[trigger] front[j]) == key;
                assert(line_key(ds[j]) == key);
            } else {
                assert(line_key(ds[ds.len() - 1]) == key);
            }
        }
        if has_line(ds, key) {
            let j = choose|j: int| 0 <= j < ds.len() && line_key(#[trigger] ds[j]) == key;
            if j < front.len() {
                assert(line_key(front[j]) == key);
            }
            if has_line(front, key) {
                let i = choose|i: int|
                    0 <= i < kept_front.len() && line_key(#[trigger] kept_front[i]) == key;
                assert(line_key(kept[i]) == key);
            } else {
                assert(line_key(kept[kept.len() - 1]) == key);
            }
        }
    }
}

/// Removing repeated lines leaves no line twice.
pub proof fn law_unique_lines_differ(ds: Seq<Declaration>)
    ensures
        forall|a: int, b: int|
            0 <= a < b < unique_lines(ds).len() ==> line_key(#[trigger] unique_lines(ds)[a])
                != line_key(#[trigger] unique_lines(ds)[b]),
    decreases ds.len(),
{
    if ds.len() > 0 {
        let front = ds.drop_last();
        law_unique_lines_differ(front);
        law_unique_lines_keep_each_line(front, line_key(ds.last()));
        let kept = unique_lines(ds);
        let kept_front = unique_lines(front);
        assert forall|a: int, b: int| 0 <= a < b < kept.len() implies line_key(#[trigger] kept[a])
            != line_key(#[trigger] kept[b]) by {
            if b < kept_front.len() {
                assert(kept[a] == kept_front[a] && kept[b] == kept_front[b]);
            } else {
                assert(kept[a] == kept_front[a]);
            }
        }
    }
}

/// Merging gives each module one group, and no group a name twice.
pub proof fn law_merged_groups_differ(ds: Seq<Declaration>)
    ensures
        pairwise_distinct(sources(merged(ds))),
        forall|s: Seq<char>| #[trigger] sources(merged(ds)).contains(s) <==> has_source(ds, s),
        forall|k: int|
            0 <= k < merged(ds).len() ==> pairwise_distinct(
                names((#[trigger] merged(ds)[k]).named_imports),
            ),
{
    lemma_distinct_sources_distinct(ds);
    assert(sources(merged(ds)) =~= distinct_sources(ds));
    assert forall|s: Seq<char>| #[trigger] sources(merged(ds)).contains(s) <==> has_source(
        ds,
        s,
    ) by {
        lemma_distinct_sources_contains(ds, s);
    }
    assert forall|k: int| 0 <= k < merged(ds).len() implies pairwise_distinct(
        names((#[trigger] merged(ds)[k]).named_imports),
    ) by {
        lemma_all_named_distinct(ds, distinct_sources(ds)[k]);
    }
}

proof fn lemma_group_of_lone(ds: Seq<Declaration>, i: int)
    requires
        0 <= i < ds.len(),
        forall|j: int| 0 <= j < ds.len() && j != i ==> (#[trigger] ds[j]).source != ds[i].source,
    ensures
        group_of(ds, ds[i].source) == absorb(empty_group(ds[i].source), ds[i]),
    decreases ds.len(),
{
    let front = ds.drop_last();
    let s = ds[i].source;
    if i == ds.len() - 1 {
        assert(!has_source(front, s)) by {
            if has_source(front, s) {
                let j = choose|j: int| 0 <= j < front.len() && (#[trigger] front[j]).source == s;
                assert(ds[j].source == s);
            }
        }
        lemma_group_of_absent(front, s);
    } else {
        assert forall|j: int| 0 <= j < front.len() && j != i implies (#[trigger] front[j]).source
            != front[i].source by {
            assert(ds[j].source != ds[i].source);
        }
        assert(ds[ds.len() - 1].source != s);
        lemma_group_of_lone(front, i);
    }
}

/// A declaration whose module no other declaration imports from comes out
/// of merging as a group of its own: with its default binding, its
/// namespace alias and its named bindings, each name once, and the only
/// group of its module.
pub proof fn law_merge_keeps_lone_declaration(ds: Seq<Declaration>, i: int, sort: bool)
    requires
        0 <= i < ds.len(),
        forall|j: int| 0 <= j < ds.len() && j != i ==> (#[trigger] ds[j]).source != ds[i].source,
    ensures
        exists|k: int|
            {
                &&& 0 <= k < merge_spec(ds, sort).len()
                &&& #[trigger] merge_spec(ds, sort)[k] == (if sort {
                    with_sorted_names(absorb(empty_group(ds[i].source), ds[i]))
                } else {
                    absorb(empty_group(ds[i].source), ds[i])
                })
                &&& forall|m: int|
                    0 <= m < merge_spec(ds, sort).len() && m != k ==> (#[trigger] merge_spec(
                        ds,
                        sort,
                    )[m]).source != ds[i].source
            },
{
    let s = ds[i].source;
    let gs = merged(ds);
    lemma_group_of_lone(ds, i);
    lemma_distinct_sources_contains(ds, s);
    lemma_distinct_sources_distinct(ds);
    assert(has_source(ds, s));
    let k0 = choose|k0: int| 0 <= k0 < distinct_sources(ds).len() && distinct_sources(ds)[k0] == s;
    assert(gs[k0] == absorb(empty_group(s), ds[i]));
    assert forall|m: int| 0 <= m < gs.len() && m != k0 implies (#[trigger] gs[m]).source != s by {
        assert(distinct_sources(ds)[m] != distinct_sources(ds)[k0]);
    }
    if sort {
        let p = sort_order(sources(gs));
        lemma_sort_groups(gs);
        assert(p.contains(k0));
        let a = choose|a: int| 0 <= a < p.len() && p[a] == k0;
        let out = merge_spec(ds, sort);
        assert(out[a] == with_sorted_names(gs[k0]));
        assert forall|m: int| 0 <= m < out.len() && m != a implies (#[trigger] out[m]).source
            != s by {
            if m < a {
                assert(before(sources(gs), p[m], p[a]));
            } else {
                assert(before(sources(gs), p[a], p[m]));
            }
            lemma_lex_le_reflexive(s);
            assert(p[m] != k0);
            assert(gs[p[m]].source != s);
        }
        assert(0 <= a < out.len() && out[a] == with_sorted_names(absorb(empty_group(s), ds[i])));
    } else {
        let out = merge_spec(ds, sort);
        assert(0 <= k0 < out.len() && out[k0] == absorb(empty_group(s), ds[i]));
    }
}

proof fn lemma_body_from(ls: Seq<Seq<char>>, ds: Seq<Declaration>, i: int)
    requires
        0 <= i <= ls.len(),
    ensures
        i <= body_from(ls, ds, i) <= ls.len(),
        forall|j: int| i <= j < body_from(ls, ds, i) ==> !is_content_line(ls, ds, j),
        body_from(ls, ds, i) < ls.len() ==> is_content_line(ls, ds, body_from(ls, ds, i)),
    decreases ls.len() - i,
{
    if i < ls.len() && !is_content_line(ls, ds, i) {
        lemma_body_from(ls, ds, i + 1);
    }
}

/// What stands behind the import block is the text as it was, from its
/// first line on that is neither blank nor the line of a declaration: those
/// lines in their order, blank ones too, separated by line feeds, and one
/// empty line between the block and them.
pub proof fn law_trailing_body_untouched(rules: OptimizationRules, code: Seq<char>)
    requires
        parse_text(code).len() > 0,
    ensures
        ({
            let ds = parse_text(code);
            let ls = lines(code);
            let k = body_from(ls, ds, 0);
            let block = block_text(arranged(rules, ds));
            &&& 0 <= k <= ls.len()
            &&& forall|j: int| 0 <= j < k ==> !is_content_line(ls, ds, j)
            &&& k < ls.len() ==> is_content_line(ls, ds, k)
            &&& trailing_body(ls, ds) == ls.skip(k)
            &&& k < ls.len() && block.len() > 0 ==> optimize_spec(rules, code) == block + "\n\n"@
                + join(ls.skip(k), "\n"@)
            &&& k < ls.len() && block.len() == 0 ==> optimize_spec(rules, code) == join(
                ls.skip(k),
                "\n"@,
            )
            &&& k == ls.len() ==> optimize_spec(rules, code) == block
        }),
{
    lemma_body_from(lines(code), parse_text(code), 0);
}

} // verus!
