//! Rendering groups as import lines.

use vstd::prelude::*;
use crate::lines::{append_chars, join, join_texts, texts};
use crate::model::{bindings, copy_text, groups, Binding, Group, MergedImport, NamedImport};
use crate::text::chars_of;

verus! {

/// One binding as it is written: `name`, or `name as alias`.
pub open spec fn binding_text(b: Binding) -> Seq<char> {
    match b.alias {
        Some(alias) => b.name + " as "@ + alias,
        None => b.name,
    }
}

/// The bindings of `named` as they are written, one text each.
pub open spec fn binding_texts(named: Seq<Binding>) -> Seq<Seq<char>> {
    Seq::new(named.len(), |i: int| binding_text(named[i]))
}

/// The named part of a clause: a single binding stands bare, any other
/// number of them in braces, separated by a comma and a space.
pub open spec fn named_text(named: Seq<Binding>) -> Seq<char> {
    if named.len() == 1 {
        binding_text(named[0])
    } else {
        "{ "@ + join(binding_texts(named), ", "@) + " }"@
    }
}

/// The parts of the clause of `g` that are present: the default binding,
/// the namespace part, the named part.
pub open spec fn clause_parts(g: Group) -> Seq<Seq<char>> {
    let first = match g.default_import {
        Some(d) => seq![d],
        None => Seq::empty(),
    };
    let second = match g.namespace_import {
        Some(n) => seq!["* as "@ + n],
        None => Seq::empty(),
    };
    let third = if g.named_imports.len() > 0 {
        seq![named_text(g.named_imports)]
    } else {
        Seq::empty()
    };
    first + second + third
}

/// The clause of `g`: its parts, separated by a comma and a space.
pub open spec fn clause_text(g: Group) -> Seq<char> {
    join(clause_parts(g), ", "@)
}

/// The import line of `g`.
pub open spec fn line_text(g: Group) -> Seq<char> {
    "import "@ + clause_text(g) + " from '"@ + g.source + "';"@
}

/// The import lines of the groups of `gs` whose clause is not empty.
pub open spec fn block_lines(gs: Seq<Group>) -> Seq<Seq<char>>
    decreases gs.len(),
{
    if gs.len() == 0 {
        Seq::empty()
    } else if clause_text(gs.last()).len() > 0 {
        block_lines(gs.drop_last()).push(line_text(gs.last()))
    } else {
        block_lines(gs.drop_last())
    }
}

/// The import block of `gs`: its lines, separated by line feeds.
pub open spec fn block_text(gs: Seq<Group>) -> Seq<char> {
    join(block_lines(gs), "\n"@)
}

fn format_binding(b: &NamedImport) -> (r: Vec<char>)
    ensures
        r@ == binding_text(b@),
{
    let mut out = copy_text(&b.name);
    match &b.alias {
        Some(alias) => {
            append_chars(&mut out, &chars_of(" as "));
            append_chars(&mut out, alias);
        },
        None => {},
    }
    out
}

fn format_named(named: &Vec<NamedImport>) -> (r: Vec<char>)
    ensures
        r@ == named_text(bindings(named@)),
{
    let mut parts: Vec<Vec<char>> = Vec::new();
    let mut i: usize = 0;
    while i < named.len()
        invariant
            i <= named.len(),
            parts.len() == i,
            forall|j: int| 0 <= j < i ==> parts@[j]@ == binding_text(named@[j]@),
        decreases named.len() - i,
    {
        parts.push(format_binding(&named[i]));
        i += 1;
    }
    assert(texts(parts@) =~= binding_texts(bindings(named@)));
    if parts.len() == 1 {
        copy_text(&parts[0])
    } else {
        let mut out = chars_of("{ ");
        append_chars(&mut out, &join_texts(&parts, &chars_of(", ")));
        append_chars(&mut out, &chars_of(" }"));
        out
    }
}

/// The clause of `imp`: the default binding, the namespace part and the
/// named part, as far as they are present, separated by a comma and a space.
pub fn format_import_clause(imp: &MergedImport) -> (r: Vec<char>)
    ensures
        r@ == clause_text(imp@),
{
    let mut parts: Vec<Vec<char>> = Vec::new();
    assert(texts(parts@) =~= Seq::empty());
    match &imp.default_import {
        Some(d) => {
            let part = copy_text(d);
            assert(texts(parts@.push(part)) =~= texts(parts@).push(part@));
            parts.push(part);
        },
        None => {},
    }
    match &imp.namespace_import {
        Some(n) => {
            let mut part = chars_of("* as ");
            append_chars(&mut part, n);
            assert(texts(parts@.push(part)) =~= texts(parts@).push(part@));
            parts.push(part);
        },
        None => {},
    }
    if imp.named_imports.len() > 0 {
        let part = format_named(&imp.named_imports);
        assert(texts(parts@.push(part)) =~= texts(parts@).push(part@));
        parts.push(part);
    }
    assert(texts(parts@) =~= clause_parts(imp@));
    join_texts(&parts, &chars_of(", "))
}

/// The import block of `imports`: one line for each group whose clause is
/// not empty, in order, separated by line feeds.
pub fn format_imports(imports: &Vec<MergedImport>) -> (r: Vec<char>)
    ensures
        r@ == block_text(groups(imports@)),
{
    let mut result: Vec<Vec<char>> = Vec::new();
    let mut i: usize = 0;
    assert(texts(result@) =~= block_lines(groups(imports@).take(0)));
    while i < imports.len()
        invariant
            i <= imports.len(),
            texts(result@) == block_lines(groups(imports@).take(i as int)),
        decreases imports.len() - i,
    {
        let imp = &imports[i];
        proof {
            let next = groups(imports@).take(i + 1);
            assert(next.drop_last() == groups(imports@).take(i as int));
            assert(next.last() == imp@);
        }
        let clause = format_import_clause(imp);
        if clause.len() > 0 {
            let mut line = chars_of("import ");
            append_chars(&mut line, &clause);
            append_chars(&mut line, &chars_of(" from '"));
            append_chars(&mut line, &imp.source);
            append_chars(&mut line, &chars_of("';"));
            assert(texts(result@.push(line)) =~= texts(result@).push(line@));
            result.push(line);
        }
        i += 1;
    }
    assert(groups(imports@).take(imports.len() as int) == groups(imports@));
    join_texts(&result, &chars_of("\n"))
}

} // verus!
