//! Merging the declarations of one module into one group.

use vstd::prelude::*;
use crate::lines::texts;
use crate::model::{
    bindings, copy_opt_text, copy_text, declarations, groups, Binding, Declaration, Group,
    ImportInfo, MergedImport, NamedImport,
};
use crate::order::{
    ascending, before, indices, is_stable_order, lemma_lex_le_reflexive, lemma_order_upto,
    lemma_stable_order_ascends, permute, sort_by, sort_order, stable_order, text_eq,
};

verus! {

/// Whether a binding of `named` has the name `name`.
pub open spec fn has_name(named: Seq<Binding>, name: Seq<char>) -> bool {
    exists|i: int| 0 <= i < named.len() && (#[trigger] named[i]).name == name
}

/// `named`, and behind it `b` unless its name is taken.
pub open spec fn add_binding(named: Seq<Binding>, b: Binding) -> Seq<Binding> {
    if has_name(named, b.name) {
        named
    } else {
        named.push(b)
    }
}

/// `named`, and behind it, in order, each binding of `more` whose name is
/// not taken when its turn comes.
pub open spec fn add_bindings(named: Seq<Binding>, more: Seq<Binding>) -> Seq<Binding>
    decreases more.len(),
{
    if more.len() == 0 {
        named
    } else {
        add_binding(add_bindings(named, more.drop_last()), more.last())
    }
}

/// Whether a declaration of `ds` imports from `source`.
pub open spec fn has_source(ds: Seq<Declaration>, source: Seq<char>) -> bool {
    exists|i: int| 0 <= i < ds.len() && (#[trigger] ds[i]).source == source
}

/// The modules that `ds` imports from, each once, in the order in which
/// they first occur.
pub open spec fn distinct_sources(ds: Seq<Declaration>) -> Seq<Seq<char>>
    decreases ds.len(),
{
    if ds.len() == 0 {
        Seq::empty()
    } else {
        let front = distinct_sources(ds.drop_last());
        if front.contains(ds.last().source) {
            front
        } else {
            front.push(ds.last().source)
        }
    }
}

/// The default binding of the first declaration of `ds` that imports from
/// `source` and has one.
pub open spec fn first_default(ds: Seq<Declaration>, source: Seq<char>) -> Option<Seq<char>>
    decreases ds.len(),
{
    if ds.len() == 0 {
        None
    } else {
        let front = first_default(ds.drop_last(), source);
        if front is None && ds.last().source == source {
            ds.last().default_import
        } else {
            front
        }
    }
}

/// The namespace alias of the first declaration of `ds` that imports from
/// `source` and has one.
pub open spec fn first_namespace(ds: Seq<Declaration>, source: Seq<char>) -> Option<Seq<char>>
    decreases ds.len(),
{
    if ds.len() == 0 {
        None
    } else {
        let front = first_namespace(ds.drop_last(), source);
        if front is None && ds.last().source == source {
            ds.last().namespace_import
        } else {
            front
        }
    }
}

/// The named bindings of the declarations of `ds` that import from
/// `source`, in order, each name once with the alias it first had.
pub open spec fn all_named(ds: Seq<Declaration>, source: Seq<char>) -> Seq<Binding>
    decreases ds.len(),
{
    if ds.len() == 0 {
        Seq::empty()
    } else {
        let front = all_named(ds.drop_last(), source);
        if ds.last().source == source {
            add_bindings(front, ds.last().named_imports)
        } else {
            front
        }
    }
}

/// All that `ds` imports from `source`.
pub open spec fn group_of(ds: Seq<Declaration>, source: Seq<char>) -> Group {
    Group {
        source,
        default_import: first_default(ds, source),
        named_imports: all_named(ds, source),
        namespace_import: first_namespace(ds, source),
    }
}

/// One group for each module that `ds` imports from, in the order in which
/// the modules first occur.
pub open spec fn merged(ds: Seq<Declaration>) -> Seq<Group> {
    let sources = distinct_sources(ds);
    Seq::new(sources.len(), |k: int| group_of(ds, sources[k]))
}

/// Whether no two texts of `s` are equal.
pub open spec fn pairwise_distinct(s: Seq<Seq<char>>) -> bool {
    forall|a: int, b: int| 0 <= a < b < s.len() ==> #[trigger] s[a] != #[trigger] s[b]
}

/// The names of `named`.
pub open spec fn names(named: Seq<Binding>) -> Seq<Seq<char>> {
    Seq::new(named.len(), |i: int| named[i].name)
}

/// The modules of `gs`.
pub open spec fn sources(gs: Seq<Group>) -> Seq<Seq<char>> {
    Seq::new(gs.len(), |i: int| gs[i].source)
}

/// `distinct_sources` lists exactly the modules that are imported from.
pub proof fn lemma_distinct_sources_contains(ds: Seq<Declaration>, s: Seq<char>)
    ensures
        distinct_sources(ds).contains(s) <==> has_source(ds, s),
    decreases ds.len(),
{
    if ds.len() > 0 {
        let front_ds = ds.drop_last();
        let front = distinct_sources(front_ds);
        lemma_distinct_sources_contains(front_ds, s);
        let now = distinct_sources(ds);
        if now.contains(s) {
            let k = choose|k: int| 0 <= k < now.len() && now[k] == s;
            if k < front.len() {
                assert(front[k] == s);
                assert(front.contains(s));
                let i = choose|i: int|
                    0 <= i < front_ds.len() && (#[trigger] front_ds[i]).source == s;
                assert(ds[i].source == s);
            } else {
                assert(ds[ds.len() - 1].source == s);
            }
        }
        if has_source(ds, s) {
            let i = choose|i: int| 0 <= i < ds.len() && (#[trigger] ds[i]).source == s;
            if i < ds.len() - 1 {
                assert(front_ds[i].source == s);
                assert(has_source(front_ds, s));
                let k = choose|k: int| 0 <= k < front.len() && front[k] == s;
                assert(now[k] == s);
            } else if front.contains(s) {
            } else {
                assert(now[front.len() as int] == s);
            }
        }
    }
}

/// `distinct_sources` lists no module twice.
pub proof fn lemma_distinct_sources_distinct(ds: Seq<Declaration>)
    ensures
        pairwise_distinct(distinct_sources(ds)),
    decreases ds.len(),
{
    if ds.len() > 0 {
        lemma_distinct_sources_distinct(ds.drop_last());
    }
}

/// No two bindings that `add_bindings` returns share a name, if none of
/// `named` do.
pub proof fn lemma_add_bindings_distinct(named: Seq<Binding>, more: Seq<Binding>)
    requires
        pairwise_distinct(names(named)),
    ensures
        pairwise_distinct(names(add_bindings(named, more))),
    decreases more.len(),
{
    if more.len() > 0 {
        lemma_add_bindings_distinct(named, more.drop_last());
        let front = add_bindings(named, more.drop_last());
        let b = more.last();
        if !has_name(front, b.name) {
            let now = front.push(b);
            assert forall|x: int, y: int| 0 <= x < y < names(now).len() implies #[trigger] names(
                now,
            )[x] != #[trigger] names(now)[y] by {
                if y < front.len() {
                    assert(names(front)[x] != names(front)[y]);
                } else {
                    assert(front[x].name != b.name);
                }
            }
        }
    }
}

/// No two named bindings of a group of `merged` share a name.
pub proof fn lemma_all_named_distinct(ds: Seq<Declaration>, source: Seq<char>)
    ensures
        pairwise_distinct(names(all_named(ds, source))),
    decreases ds.len(),
{
    if ds.len() > 0 {
        lemma_all_named_distinct(ds.drop_last(), source);
        lemma_add_bindings_distinct(all_named(ds.drop_last(), source), ds.last().named_imports);
    }
}

/// The group `g` after the declaration `d` of the same module: what `g`
/// has it keeps, what it lacks it takes from `d`.
pub open spec fn absorb(g: Group, d: Declaration) -> Group {
    Group {
        source: g.source,
        default_import: if g.default_import is None {
            d.default_import
        } else {
            g.default_import
        },
        named_imports: add_bindings(g.named_imports, d.named_imports),
        namespace_import: if g.namespace_import is None {
            d.namespace_import
        } else {
            g.namespace_import
        },
    }
}

/// The group of `source` that imports nothing yet.
pub open spec fn empty_group(source: Seq<char>) -> Group {
    Group {
        source,
        default_import: None,
        named_imports: Seq::empty(),
        namespace_import: None,
    }
}

pub proof fn lemma_group_of_absent(ds: Seq<Declaration>, source: Seq<char>)
    requires
        !has_source(ds, source),
    ensures
        group_of(ds, source) == empty_group(source),
    decreases ds.len(),
{
    if ds.len() > 0 {
        let front = ds.drop_last();
        assert(ds[ds.len() - 1].source != source);
        assert(!has_source(front, source)) by {
            if has_source(front, source) {
                let i = choose|i: int| 0 <= i < front.len() && (#[trigger] front[i]).source == source;
                assert(ds[i].source == source);
            }
        }
        lemma_group_of_absent(front, source);
    }
}

/// How one more declaration changes the groups: it is absorbed by the
/// group of its module, or founds a new last group.
pub proof fn lemma_merged_push(ds: Seq<Declaration>, d: Declaration)
    ensures
        forall|k: int|
            0 <= k < distinct_sources(ds).len() && #[trigger] distinct_sources(ds)[k] == d.source
                ==> merged(ds.push(d)) == merged(ds).update(k, absorb(merged(ds)[k], d)),
        !distinct_sources(ds).contains(d.source) ==> merged(ds.push(d)) == merged(ds).push(
            absorb(empty_group(d.source), d),
        ),
{
    let more = ds.push(d);
    let srcs = distinct_sources(ds);
    assert(more.drop_last() == ds);
    lemma_distinct_sources_distinct(ds);
    if srcs.contains(d.source) {
        assert forall|k: int| 0 <= k < srcs.len() && #[trigger] srcs[k] == d.source implies merged(
            more,
        ) == merged(ds).update(k, absorb(merged(ds)[k], d)) by {
            assert(merged(more) =~= merged(ds).update(k, absorb(merged(ds)[k], d)));
        }
    } else {
        lemma_distinct_sources_contains(ds, d.source);
        lemma_group_of_absent(ds, d.source);
        assert(merged(more) =~= merged(ds).push(absorb(empty_group(d.source), d)));
    }
}

/// Whether a binding of `named` has the name `name`.
fn names_hold(named: &Vec<NamedImport>, name: &Vec<char>) -> (r: bool)
    ensures
        r == has_name(bindings(named@), name@),
{
    let mut i: usize = 0;
    while i < named.len()
        invariant
            i <= named.len(),
            forall|j: int| 0 <= j < i ==> (#[trigger] bindings(named@)[j]).name != name@,
        decreases named.len() - i,
    {
        if text_eq(&named[i].name, name) {
            assert(bindings(named@)[i as int].name == name@);
            return true;
        }
        i += 1;
    }
    false
}

/// Adds to `named` each binding of `more` whose name is not taken.
fn add_named(named: &mut Vec<NamedImport>, more: &Vec<NamedImport>)
    ensures
        bindings(final(named)@) == add_bindings(bindings(old(named)@), bindings(more@)),
{
    let mut i: usize = 0;
    assert(bindings(more@).take(0) =~= Seq::<Binding>::empty());
    while i < more.len()
        invariant
            i <= more.len(),
            bindings(named@) == add_bindings(bindings(old(named)@), bindings(more@).take(i as int)),
        decreases more.len() - i,
    {
        proof {
            let next = bindings(more@).take(i + 1);
            assert(next.drop_last() == bindings(more@).take(i as int));
            assert(next.last() == more@[i as int]@);
        }
        if !names_hold(named, &more[i].name) {
            let b = more[i].copy();
            assert(bindings(named@.push(b)) =~= bindings(named@).push(b@));
            named.push(b);
        }
        i += 1;
    }
    assert(bindings(more@).take(more.len() as int) == bindings(more@));
}

/// Lets the group `g` absorb the declaration `imp`.
fn absorb_into(g: &mut MergedImport, imp: &ImportInfo)
    ensures
        final(g)@ == absorb(old(g)@, imp@),
{
    if g.default_import.is_none() {
        g.default_import = copy_opt_text(&imp.default_import);
    }
    if g.namespace_import.is_none() {
        g.namespace_import = copy_opt_text(&imp.namespace_import);
    }
    add_named(&mut g.named_imports, &imp.named_imports);
}

/// The index of the group of `source`.
fn find_group(gs: &Vec<MergedImport>, source: &Vec<char>) -> (r: Option<usize>)
    ensures
        r matches Some(k) ==> k < gs.len() && gs@[k as int].source@ == source@,
        r is None ==> forall|j: int| 0 <= j < gs.len() ==> gs@[j].source@ != source@,
{
    let mut i: usize = 0;
    while i < gs.len()
        invariant
            i <= gs.len(),
            forall|j: int| 0 <= j < i ==> gs@[j].source@ != source@,
        decreases gs.len() - i,
    {
        if text_eq(&gs[i].source, source) {
            return Some(i);
        }
        i += 1;
    }
    None
}

/// One group for each module that `imports` import from, in the order in
/// which the modules first occur.
pub fn group_imports(imports: &Vec<ImportInfo>) -> (r: Vec<MergedImport>)
    ensures
        groups(r@) == merged(declarations(imports@)),
{
    let ghost ds = declarations(imports@);
    let mut out: Vec<MergedImport> = Vec::new();
    let mut i: usize = 0;
    assert(groups(out@) =~= merged(ds.take(0)));
    while i < imports.len()
        invariant
            i <= imports.len(),
            ds == declarations(imports@),
            groups(out@) == merged(ds.take(i as int)),
        decreases imports.len() - i,
    {
        let imp = &imports[i];
        let ghost done = ds.take(i as int);
        proof {
            assert(ds.take(i + 1) == done.push(imp@));
            lemma_merged_push(done, imp@);
            assert(groups(out@).len() == distinct_sources(done).len());
        }
        match find_group(&out, &imp.source) {
            Some(k) => {
                assert(groups(out@)[k as int].source == imp@.source);
                assert(distinct_sources(done)[k as int] == imp@.source);
                let ghost before = out@;
                let mut g = out.remove(k);
                absorb_into(&mut g, imp);
                out.insert(k, g);
                assert(groups(out@) =~= groups(before).update(k as int, g@));
            },
            None => {
                proof {
                    if distinct_sources(done).contains(imp@.source) {
                        let k = choose|k: int|
                            0 <= k < distinct_sources(done).len() && distinct_sources(done)[k]
                                == imp@.source;
                        assert(groups(out@)[k].source == imp@.source);
                    }
                }
                let mut g = MergedImport {
                    source: copy_text(&imp.source),
                    default_import: None,
                    named_imports: Vec::new(),
                    namespace_import: None,
                };
                assert(g@ == empty_group(imp@.source)) by {
                    assert(bindings(g.named_imports@) =~= Seq::<Binding>::empty());
                }
                absorb_into(&mut g, imp);
                assert(groups(out@.push(g)) =~= groups(out@).push(g@));
                out.push(g);
            },
        }
        i += 1;
    }
    assert(ds.take(imports.len() as int) == ds);
    out
}

/// `named` stably sorted by name.
pub open spec fn sort_named(named: Seq<Binding>) -> Seq<Binding> {
    sort_by(named, names(named))
}

/// `gs` stably sorted by module.
pub open spec fn sort_groups(gs: Seq<Group>) -> Seq<Group> {
    sort_by(gs, sources(gs))
}

/// `g` with its named bindings sorted by name.
pub open spec fn with_sorted_names(g: Group) -> Group {
    Group {
        source: g.source,
        default_import: g.default_import,
        named_imports: sort_named(g.named_imports),
        namespace_import: g.namespace_import,
    }
}

/// What `merge_imports` returns: the groups of `ds`, in the order in which
/// their modules first occur; or, if `sort` is set, sorted by module, each
/// with its named bindings sorted by name.
pub open spec fn merge_spec(ds: Seq<Declaration>, sort: bool) -> Seq<Group> {
    if sort {
        let gs = sort_groups(merged(ds));
        Seq::new(gs.len(), |k: int| with_sorted_names(gs[k]))
    } else {
        merged(ds)
    }
}

/// Sorting the groups by module puts each group at one place, and the
/// modules then ascend; groups of one module keep their order.
pub proof fn lemma_sort_groups(gs: Seq<Group>)
    ensures
        is_stable_order(sources(gs), sort_order(sources(gs))),
        sort_groups(gs) == permute(gs, sort_order(sources(gs))),
        sources(sort_groups(gs)) == permute(sources(gs), sort_order(sources(gs))),
        ascending(sources(sort_groups(gs))),
        pairwise_distinct(sources(gs)) ==> pairwise_distinct(sources(sort_groups(gs))),
{
    let keys = sources(gs);
    let p = sort_order(keys);
    lemma_order_upto(keys, keys.len() as int);
    lemma_stable_order_ascends(keys, p);
    let sorted = sources(sort_groups(gs));
    assert(sorted =~= permute(keys, p));
    if pairwise_distinct(keys) {
        assert forall|a: int, b: int| 0 <= a < b < sorted.len() implies #[trigger] sorted[a]
            != #[trigger] sorted[b] by {
            assert(before(keys, p[a], p[b]));
            lemma_lex_le_reflexive(keys[p[a]]);
            if p[a] < p[b] {
                assert(keys[p[a]] != keys[p[b]]);
            } else {
                assert(keys[p[b]] != keys[p[a]]);
            }
        }
    }
}

/// `named` stably sorted by name.
pub fn sorted_bindings(named: &Vec<NamedImport>) -> (r: Vec<NamedImport>)
    ensures
        bindings(r@) == sort_named(bindings(named@)),
{
    let mut keys: Vec<Vec<char>> = Vec::new();
    let mut i: usize = 0;
    while i < named.len()
        invariant
            i <= named.len(),
            keys.len() == i,
            forall|j: int| 0 <= j < i ==> keys@[j]@ == named@[j].name@,
        decreases named.len() - i,
    {
        keys.push(copy_text(&named[i].name));
        i += 1;
    }
    assert(texts(keys@) =~= names(bindings(named@)));
    let order = stable_order(&keys);
    let mut out: Vec<NamedImport> = Vec::new();
    let mut k: usize = 0;
    while k < order.len()
        invariant
            k <= order.len(),
            out.len() == k,
            forall|j: int| 0 <= j < order.len() ==> order@[j] < named.len(),
            forall|j: int| 0 <= j < k ==> out@[j]@ == named@[order@[j] as int]@,
        decreases order.len() - k,
    {
        out.push(named[order[k]].copy());
        k += 1;
    }
    assert(bindings(out@) =~= permute(bindings(named@), indices(order@)));
    out
}

/// `gs` stably sorted by module.
pub fn sorted_groups(gs: &Vec<MergedImport>) -> (r: Vec<MergedImport>)
    ensures
        groups(r@) == sort_groups(groups(gs@)),
        ascending(sources(groups(r@))),
{
    proof {
        lemma_sort_groups(groups(gs@));
    }
    let mut keys: Vec<Vec<char>> = Vec::new();
    let mut i: usize = 0;
    while i < gs.len()
        invariant
            i <= gs.len(),
            keys.len() == i,
            forall|j: int| 0 <= j < i ==> keys@[j]@ == gs@[j].source@,
        decreases gs.len() - i,
    {
        keys.push(copy_text(&gs[i].source));
        i += 1;
    }
    assert(texts(keys@) =~= sources(groups(gs@)));
    let order = stable_order(&keys);
    let mut out: Vec<MergedImport> = Vec::new();
    let mut k: usize = 0;
    while k < order.len()
        invariant
            k <= order.len(),
            out.len() == k,
            forall|j: int| 0 <= j < order.len() ==> order@[j] < gs.len(),
            forall|j: int| 0 <= j < k ==> out@[j]@ == gs@[order@[j] as int]@,
        decreases order.len() - k,
    {
        out.push(gs[order[k]].copy());
        k += 1;
    }
    assert(groups(out@) =~= permute(groups(gs@), indices(order@)));
    out
}

/// What is merged has one group for each module, and with `sort` the
/// modules ascend.
pub proof fn lemma_merge_spec_sources(ds: Seq<Declaration>, sort: bool)
    ensures
        pairwise_distinct(sources(merge_spec(ds, sort))),
        sort ==> ascending(sources(merge_spec(ds, sort))),
{
    lemma_distinct_sources_distinct(ds);
    assert(sources(merged(ds)) =~= distinct_sources(ds));
    if sort {
        lemma_sort_groups(merged(ds));
        assert(sources(merge_spec(ds, sort)) =~= sources(sort_groups(merged(ds))));
    }
}

/// Merges the declarations of each module into one group.
///
/// The groups stand in the order in which their modules first occur. A
/// group has the first default binding and the first namespace alias that a
/// declaration of its module has, and the named bindings of all of them in
/// order, each name once with the alias it first had. With `sort_imports`
/// the groups are then sorted by module, and the named bindings of each
/// group by name.
pub fn merge_imports(imports: &Vec<ImportInfo>, sort_imports: bool) -> (r: Vec<MergedImport>)
    ensures
        groups(r@) == merge_spec(declarations(imports@), sort_imports),
        pairwise_distinct(sources(groups(r@))),
        sort_imports ==> ascending(sources(groups(r@))),
{
    proof {
        lemma_merge_spec_sources(declarations(imports@), sort_imports);
    }
    let merged = group_imports(imports);
    if !sort_imports {
        return merged;
    }
    let sorted = sorted_groups(&merged);
    let mut out: Vec<MergedImport> = Vec::new();
    let mut i: usize = 0;
    while i < sorted.len()
        invariant
            i <= sorted.len(),
            out.len() == i,
            forall|j: int| 0 <= j < i ==> out@[j]@ == with_sorted_names(sorted@[j]@),
        decreases sorted.len() - i,
    {
        let g = &sorted[i];
        out.push(
            MergedImport {
                source: copy_text(&g.source),
                default_import: copy_opt_text(&g.default_import),
                named_imports: sorted_bindings(&g.named_imports),
                namespace_import: copy_opt_text(&g.namespace_import),
            },
        );
        i += 1;
    }
    assert(groups(out@) =~= merge_spec(declarations(imports@), true));
    out
}

} // verus!
