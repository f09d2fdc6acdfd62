//! The line of a namespace import is read and written back unchanged.

use vstd::prelude::*;
use crate::chars::{
    begins_with, first_at, first_occurrence, first_of, is_quote, is_space, last_at,
    lemma_first_of_is, lemma_index_of_is, lemma_last_of_is, lemma_strip_padded, occurs_at, quotes,
    spaces, trim,
};
use crate::dedup::{contents, has_line, line_key, unique_lines};
use crate::format::{block_lines, block_text, clause_parts, clause_text, line_text};
use crate::lines::{lines, newline};
use crate::merge::{
    add_bindings, all_named, distinct_sources, first_default, first_namespace, group_of, merge_spec,
    merged, names, sort_groups, sort_named, sources, with_sorted_names,
};
use crate::model::{Binding, Declaration, Group, OptimizationRules};
use crate::optimizer::{arranged, body_from, is_import_line, optimize_spec, trailing_body};
use crate::order::{order_upto, place_pos, sort_order};
use crate::parse::{
    as_at, clause_of, declaration_of, declarations_upto, first_as, lemma_as_index_is,
    line_declaration, parse_text, source_of, Clause,
};

verus! {

/// The line that imports the module `source` as the namespace `alias`,
/// with `quote` around the module's name.
pub open spec fn namespace_line(alias: Seq<char>, source: Seq<char>, quote: char) -> Seq<char> {
    "import * as "@ + alias + " from "@ + seq![quote] + source + seq![quote] + ";"@
}

/// Whether `alias` can stand in a namespace line and be found again: it is
/// not empty, neither begins nor ends with white space, and holds neither a
/// line feed nor the word `from`.
pub open spec fn plain_alias(alias: Seq<char>) -> bool {
    &&& alias.len() > 0
    &&& !is_space(alias[0])
    &&& !is_space(alias.last())
    &&& forall|i: int| 0 <= i < alias.len() ==> alias[i] != '\n'
    &&& forall|j: int| !occurs_at(alias, "from"@, j)
}

/// Whether `source` can stand in a namespace line and be found again: it
/// is not empty and holds no line feed.
pub open spec fn plain_source(source: Seq<char>) -> bool {
    &&& source.len() > 0
    &&& forall|i: int| 0 <= i < source.len() ==> source[i] != '\n'
}

/// The declaration that a namespace line stands for.
pub open spec fn namespace_declaration(
    alias: Seq<char>,
    source: Seq<char>,
    quote: char,
    n: nat,
) -> Declaration {
    Declaration {
        original_line: namespace_line(alias, source, quote),
        source,
        default_import: None,
        named_imports: Seq::empty(),
        namespace_import: Some(alias),
        line_number: n,
    }
}

/// The characters of a namespace line, place by place.
proof fn lemma_line_shape(alias: Seq<char>, source: Seq<char>, quote: char)
    ensures
        ({
            let line = namespace_line(alias, source, quote);
            let a = alias.len() as int;
            let s = source.len() as int;
            &&& line.len() == a + s + 21
            &&& line.subrange(0, 12) == "import * as "@
            &&& line.subrange(12, 12 + a) == alias
            &&& line.subrange(12 + a, 18 + a) == " from "@
            &&& line[18 + a] == quote
            &&& line.subrange(19 + a, 19 + a + s) == source
            &&& line[19 + a + s] == quote
            &&& line[20 + a + s] == ';'
        }),
{
    reveal_strlit("import * as ");
    reveal_strlit(" from ");
    reveal_strlit(";");
    let line = namespace_line(alias, source, quote);
    let a = alias.len() as int;
    let s = source.len() as int;
    assert(line.len() == a + s + 21);
    assert(line.subrange(0, 12) =~= "import * as "@);
    assert(line.subrange(12, 12 + a) =~= alias);
    assert(line.subrange(12 + a, 18 + a) =~= " from "@);
    assert(line.subrange(19 + a, 19 + a + s) =~= source);
}

/// In a namespace line the first `from` is the word behind the alias.
proof fn lemma_from_index(alias: Seq<char>, source: Seq<char>, quote: char)
    requires
        plain_alias(alias),
    ensures
        first_occurrence(namespace_line(alias, source, quote), "from"@, 13 + alias.len() as int),
{
    lemma_line_shape(alias, source, quote);
    reveal_strlit("import * as ");
    reveal_strlit(" from ");
    reveal_strlit("from");
    let line = namespace_line(alias, source, quote);
    let a = alias.len() as int;
    let k = 13 + a;
    let word = line.subrange(12 + a, 18 + a);
    assert(line.subrange(k, k + 4) =~= "from"@) by {
        assert forall|i: int| 0 <= i < 4 implies line.subrange(k, k + 4)[i] == "from"@[i] by {
            assert(line.subrange(k, k + 4)[i] == word[i + 1]);
        }
    }
    assert forall|j: int| 0 <= j < k implies !occurs_at(line, "from"@, j) by {
        if occurs_at(line, "from"@, j) {
            let w = line.subrange(j, j + 4);
            assert(w[0] == 'f' && w[1] == 'r' && w[2] == 'o' && w[3] == 'm');
            if j < 12 {
                assert(line.subrange(0, 12)[j] == line[j]);
                assert(w[0] == line[j]);
            } else if j + 4 <= 12 + a {
                assert(alias.subrange(j - 12, j - 12 + 4) =~= w) by {
                    assert forall|i: int| 0 <= i < 4 implies alias.subrange(j - 12, j - 12 + 4)[i]
                        == w[i] by {
                        assert(line.subrange(12, 12 + a)[j - 12 + i] == line[j + i]);
                    }
                }
                assert(occurs_at(alias, "from"@, j - 12));
            } else {
                let d = 12 + a - j;
                assert(0 <= d < 4);
                assert(w[d] == line[12 + a]);
                assert(word[0] == line[12 + a]);
            }
        }
    }
}

/// What stands between `import` and `from` in a namespace line is read
/// as a namespace import with the alias of the line.
proof fn lemma_namespace_clause(alias: Seq<char>)
    requires
        plain_alias(alias),
    ensures
        clause_of(" * as "@ + alias + " "@) == Some(
            Clause {
                default_import: None,
                named_imports: Seq::empty(),
                namespace_import: Some(alias),
            },
        ),
{
    reveal_strlit(" * as ");
    reveal_strlit(" ");
    let text = " * as "@ + alias + " "@;
    let core = seq!['*', ' ', 'a', 's', ' '] + alias;
    assert(text =~= " "@ + core + " "@);
    assert(is_space(' '));
    assert(!is_space('*'));
    lemma_strip_padded(" "@, core, " "@, spaces());
    let part = trim(text);
    assert(part == core);
    assert(first_as(part, 2)) by {
        assert(as_at(part, 2));
        assert(!as_at(part, 0));
        assert(!as_at(part, 1));
    }
    lemma_as_index_is(part, 2);
    assert(part.skip(4) =~= " "@ + alias + Seq::<char>::empty());
    lemma_strip_padded(" "@, alias, Seq::<char>::empty(), spaces());
}

/// What stands behind `from` in a namespace line names the module of the
/// line.
proof fn lemma_namespace_source(source: Seq<char>, quote: char)
    requires
        is_quote(quote),
    ensures
        source_of(trim(" "@ + seq![quote] + source + seq![quote] + ";"@)) == source,
{
    reveal_strlit(" ");
    reveal_strlit(";");
    let s = source.len() as int;
    let core = seq![quote] + source + seq![quote] + ";"@;
    let text = " "@ + seq![quote] + source + seq![quote] + ";"@;
    assert(text =~= " "@ + core + Seq::<char>::empty());
    assert(is_space(' '));
    assert(!is_space(';'));
    assert(!is_space(quote));
    lemma_strip_padded(" "@, core, Seq::<char>::empty(), spaces());
    assert(trim(text) == core);
    assert(core.len() == s + 3);
    assert(core[0] == quote && core[s + 1] == quote && core[s + 2] == ';');
    assert(first_at(core, quotes(), 0));
    assert(last_at(core, quotes(), s + 1));
    lemma_first_of_is(core, quotes(), 0);
    lemma_last_of_is(core, quotes(), s + 1);
    assert(core.subrange(1, s + 1) =~= source);
}

/// A namespace line is read as the declaration it was written for.
pub proof fn lemma_namespace_line_read(alias: Seq<char>, source: Seq<char>, quote: char, n: nat)
    requires
        plain_alias(alias),
        source.len() > 0,
        is_quote(quote),
    ensures
        declaration_of(namespace_line(alias, source, quote), n) == Some(
            namespace_declaration(alias, source, quote, n),
        ),
{
    let line = namespace_line(alias, source, quote);
    let a = alias.len() as int;
    let s = source.len() as int;
    lemma_line_shape(alias, source, quote);
    lemma_from_index(alias, source, quote);
    lemma_index_of_is(line, "from"@, 13 + a);
    lemma_namespace_clause(alias);
    lemma_namespace_source(source, quote);
    reveal_strlit("import * as ");
    reveal_strlit("import");
    reveal_strlit("from");
    reveal_strlit(" from ");
    reveal_strlit(" * as ");
    reveal_strlit(" ");
    reveal_strlit(";");
    assert(begins_with(line, "import"@)) by {
        assert forall|i: int| 0 <= i < 6 implies line.subrange(0, 6)[i] == "import"@[i] by {
            assert(line.subrange(0, 12)[i] == line[i]);
        }
        assert(line.subrange(0, 6) =~= "import"@);
    }
    assert(line.subrange(6, 13 + a) =~= " * as "@ + alias + " "@) by {
        let left = line.subrange(6, 13 + a);
        let right = " * as "@ + alias + " "@;
        assert(left.len() == right.len());
        assert forall|i: int| 0 <= i < left.len() implies left[i] == right[i] by {
            if i < 6 {
                assert(line.subrange(0, 12)[i + 6] == line[i + 6]);
            } else if i < 6 + a {
                assert(line.subrange(12, 12 + a)[i - 6] == line[i + 6]);
            } else {
                assert(line.subrange(12 + a, 18 + a)[0] == line[12 + a]);
            }
        }
    }
    assert(line.skip(13 + a + 4) =~= " "@ + seq![quote] + source + seq![quote] + ";"@) by {
        let left = line.skip(17 + a);
        let right = " "@ + seq![quote] + source + seq![quote] + ";"@;
        assert(left.len() == right.len());
        assert forall|i: int| 0 <= i < left.len() implies left[i] == right[i] by {
            if i == 0 {
                assert(line.subrange(12 + a, 18 + a)[5] == line[17 + a]);
            } else if 2 <= i < 2 + s {
                assert(line.subrange(19 + a, 19 + a + s)[i - 2] == line[17 + a + i]);
            }
        }
    }
}

/// A namespace line is one line, with no white space at either end.
proof fn lemma_one_line(alias: Seq<char>, source: Seq<char>, quote: char)
    requires
        plain_alias(alias),
        plain_source(source),
        is_quote(quote),
    ensures
        lines(namespace_line(alias, source, quote)) == seq![namespace_line(alias, source, quote)],
        trim(namespace_line(alias, source, quote)) == namespace_line(alias, source, quote),
{
    let line = namespace_line(alias, source, quote);
    let a = alias.len() as int;
    let s = source.len() as int;
    lemma_line_shape(alias, source, quote);
    reveal_strlit("import * as ");
    reveal_strlit(" from ");
    assert forall|i: int| 0 <= i < line.len() implies line[i] != '\n' by {
        if i < 12 {
            assert(line.subrange(0, 12)[i] == line[i]);
        } else if i < 12 + a {
            assert(line.subrange(12, 12 + a)[i - 12] == line[i]);
        } else if i < 18 + a {
            assert(line.subrange(12 + a, 18 + a)[i - 12 - a] == line[i]);
        } else if 19 + a <= i < 19 + a + s {
            assert(line.subrange(19 + a, 19 + a + s)[i - 19 - a] == line[i]);
        }
    }
    assert(first_of(line, newline()) is None) by {
        if let Some(k) = first_of(line, newline()) {
            assert(first_at(line, newline(), k));
        }
    }
    assert(line.subrange(0, 12)[0] == line[0]);
    assert(!is_space('i'));
    assert(!is_space(';'));
    assert(line =~= Seq::<char>::empty() + line + Seq::<char>::empty());
    lemma_strip_padded(Seq::<char>::empty(), line, Seq::<char>::empty(), spaces());
}

/// The group that a namespace declaration is written from.
pub open spec fn namespace_group(alias: Seq<char>, source: Seq<char>) -> Group {
    Group {
        source,
        default_import: None,
        named_imports: Seq::empty(),
        namespace_import: Some(alias),
    }
}

/// Sorting one text, or none, changes nothing.
proof fn lemma_sort_order_small(keys: Seq<Seq<char>>)
    requires
        keys.len() <= 1,
    ensures
        sort_order(keys) == Seq::new(keys.len(), |i: int| i),
{
    if keys.len() == 1 {
        let front = order_upto(keys, 0);
        assert(front =~= Seq::<int>::empty());
        assert(place_pos(front, keys, 0) == 0);
        assert(order_upto(keys, 1) =~= seq![0int]);
        assert(seq![0int] =~= Seq::new(1, |i: int| i));
    } else {
        assert(order_upto(keys, 0) =~= Seq::new(0, |i: int| i));
    }
}

/// A single namespace declaration is arranged as its one group, whatever
/// the rules.
proof fn lemma_arranged_single(rules: OptimizationRules, d: Declaration)
    requires
        d.default_import is None,
        d.named_imports.len() == 0,
        d.namespace_import is Some,
    ensures
        arranged(rules, seq![d]) == seq![namespace_group(d.namespace_import->0, d.source)],
{
    let ds = seq![d];
    let g = namespace_group(d.namespace_import->0, d.source);
    assert(ds.drop_last() =~= Seq::<Declaration>::empty());
    assert(d.named_imports =~= Seq::<Binding>::empty());
    assert(d.content() == g);
    if rules.merge_imports {
        assert(distinct_sources(ds.drop_last()) =~= Seq::<Seq<char>>::empty());
        assert(distinct_sources(ds) =~= seq![d.source]);
        assert(first_default(ds.drop_last(), d.source) is None);
        assert(first_namespace(ds.drop_last(), d.source) is None);
        assert(all_named(ds.drop_last(), d.source) =~= Seq::<Binding>::empty());
        assert(add_bindings(Seq::<Binding>::empty(), d.named_imports) =~= Seq::<Binding>::empty());
        assert(group_of(ds, d.source) == g);
        assert(merged(ds) =~= seq![g]);
        if rules.sort_imports {
            lemma_sort_order_small(sources(seq![g]));
            lemma_sort_order_small(names(g.named_imports));
            assert(sort_groups(seq![g]) =~= seq![g]);
            assert(sort_named(g.named_imports) =~= g.named_imports);
            assert(with_sorted_names(g) == g);
            assert(merge_spec(ds, true) =~= seq![g]);
        }
    } else {
        assert(!has_line(ds.drop_last(), line_key(d)));
        assert(unique_lines(ds.drop_last()) =~= Seq::<Declaration>::empty());
        assert(unique_lines(ds) =~= ds);
        assert(contents(ds) =~= seq![g]);
        if rules.sort_imports {
            lemma_sort_order_small(sources(seq![g]));
            assert(sort_groups(seq![g]) =~= seq![g]);
        }
    }
}

/// The group of a namespace declaration is written as the namespace line
/// with single quotes.
proof fn lemma_namespace_block(alias: Seq<char>, source: Seq<char>)
    requires
        alias.len() > 0,
    ensures
        block_text(seq![namespace_group(alias, source)]) == namespace_line(alias, source, '\''),
{
    let g = namespace_group(alias, source);
    reveal_strlit("import * as ");
    reveal_strlit(" from ");
    reveal_strlit(";");
    reveal_strlit("import ");
    reveal_strlit("* as ");
    reveal_strlit(" from '");
    reveal_strlit("';");
    let part = "* as "@ + alias;
    assert(clause_parts(g) =~= seq![part]);
    assert(clause_text(g) == part);
    assert(part.len() > 0);
    let gs = seq![g];
    assert(gs.drop_last() =~= Seq::<Group>::empty());
    assert(block_lines(gs.drop_last()) =~= Seq::<Seq<char>>::empty());
    assert(block_lines(gs) =~= seq![line_text(g)]);
    assert(block_text(gs) == line_text(g));
    assert(line_text(g) =~= namespace_line(alias, source, '\''));
}

/// A text that is one namespace line comes back as that line with single
/// quotes around the module's name, whatever the rules; so rewriting it once
/// more changes nothing.
pub proof fn law_namespace_round_trip(
    rules: OptimizationRules,
    alias: Seq<char>,
    source: Seq<char>,
    quote: char,
)
    requires
        plain_alias(alias),
        plain_source(source),
        is_quote(quote),
    ensures
        optimize_spec(rules, namespace_line(alias, source, quote)) == namespace_line(
            alias,
            source,
            '\'',
        ),
        optimize_spec(rules, optimize_spec(rules, namespace_line(alias, source, quote)))
            == optimize_spec(rules, namespace_line(alias, source, quote)),
{
    lemma_round_trip_once(rules, alias, source, quote);
    lemma_round_trip_once(rules, alias, source, '\'');
}

proof fn lemma_round_trip_once(
    rules: OptimizationRules,
    alias: Seq<char>,
    source: Seq<char>,
    quote: char,
)
    requires
        plain_alias(alias),
        plain_source(source),
        is_quote(quote),
    ensures
        optimize_spec(rules, namespace_line(alias, source, quote)) == namespace_line(
            alias,
            source,
            '\'',
        ),
{
    let line = namespace_line(alias, source, quote);
    let d = namespace_declaration(alias, source, quote, 0);
    let ls = lines(line);
    lemma_one_line(alias, source, quote);
    lemma_namespace_line_read(alias, source, quote, 0);
    assert(line_declaration(ls, 0) == Some(d));
    assert(declarations_upto(ls, 0) =~= Seq::<Declaration>::empty());
    assert(declarations_upto(ls, 1) =~= seq![d]);
    let ds = parse_text(line);
    assert(ds == seq![d]);
    lemma_arranged_single(rules, d);
    lemma_namespace_block(alias, source);
    assert(is_import_line(ds, 0)) by {
        assert(ds[0].line_number == 0);
    }
    assert(body_from(ls, ds, 1) == 1);
    assert(body_from(ls, ds, 0) == 1);
    assert(trailing_body(ls, ds) =~= Seq::<Seq<char>>::empty());
}

} // verus!
