//! Keeping each import line once and sorting the lines by module, without
//! merging them.

use vstd::prelude::*;
use crate::chars::{trim, trim_chars};
use crate::merge::{sort_groups, sorted_groups, sources};
use crate::model::{declarations, groups, Declaration, Group, ImportInfo, MergedImport};
use crate::order::{ascending, text_eq};

verus! {

/// The text by which two declarations count as the same line.
pub open spec fn line_key(d: Declaration) -> Seq<char> {
    trim(d.original_line)
}

/// Whether a declaration of `ds` has the line `key`.
pub open spec fn has_line(ds: Seq<Declaration>, key: Seq<char>) -> bool {
    exists|i: int| 0 <= i < ds.len() && line_key(#[trigger] ds[i]) == key
}

/// The declarations of `ds` whose line no earlier declaration has.
pub open spec fn unique_lines(ds: Seq<Declaration>) -> Seq<Declaration>
    decreases ds.len(),
{
    if ds.len() == 0 {
        Seq::empty()
    } else if has_line(ds.drop_last(), line_key(ds.last())) {
        unique_lines(ds.drop_last())
    } else {
        unique_lines(ds.drop_last()).push(ds.last())
    }
}

/// What each declaration of `ds` imports, as a group of its own.
pub open spec fn contents(ds: Seq<Declaration>) -> Seq<Group> {
    Seq::new(ds.len(), |i: int| ds[i].content())
}

/// What `dedup_and_sort` returns: one group for each declaration of `ds`,
/// in order; with `dedup` only for those whose line no earlier declaration
/// has; with `sort` stably sorted by module.
pub open spec fn plain_spec(ds: Seq<Declaration>, dedup: bool, sort: bool) -> Seq<Group> {
    let kept = if dedup {
        unique_lines(ds)
    } else {
        ds
    };
    if sort {
        sort_groups(contents(kept))
    } else {
        contents(kept)
    }
}

/// One group for each declaration, without merging.
///
/// With `remove_duplicates`, a declaration whose line, without white space
/// at either end, an earlier declaration has too is left out. With
/// `sort_imports`, the groups are then stably sorted by module.
pub fn dedup_and_sort(imports: &Vec<ImportInfo>, remove_duplicates: bool, sort_imports: bool) -> (r:
    Vec<MergedImport>)
    ensures
        groups(r@) == plain_spec(declarations(imports@), remove_duplicates, sort_imports),
        sort_imports ==> ascending(sources(groups(r@))),
{
    let ghost ds = declarations(imports@);
    let mut keys: Vec<Vec<char>> = Vec::new();
    let mut out: Vec<MergedImport> = Vec::new();
    let mut i: usize = 0;
    assert(ds.take(0) =~= Seq::<Declaration>::empty());
    assert(groups(out@) =~= contents(ds.take(0)));
    while i < imports.len()
        invariant
            i <= imports.len(),
            ds == declarations(imports@),
            keys.len() == i,
            forall|j: int| 0 <= j < i ==> keys@[j]@ == line_key(ds[j]),
            groups(out@) == contents(
                if remove_duplicates {
                    unique_lines(ds.take(i as int))
                } else {
                    ds.take(i as int)
                },
            ),
        decreases imports.len() - i,
    {
        let imp = &imports[i];
        let key = trim_chars(&imp.original_line);
        let ghost done = ds.take(i as int);
        let ghost next = ds.take(i + 1);
        proof {
            assert(next.drop_last() == done);
            assert(next.last() == imp@);
        }
        let mut seen = false;
        if remove_duplicates {
            let mut j: usize = 0;
            while j < i && !seen
                invariant
                    j <= i,
                    i < imports.len(),
                    keys.len() == i,
                    ds == declarations(imports@),
                    done == ds.take(i as int),
                    key@ == line_key(ds[i as int]),
                    forall|k: int| 0 <= k < i ==> keys@[k]@ == line_key(ds[k]),
                    seen ==> has_line(done, key@),
                    !seen ==> forall|k: int| 0 <= k < j ==> line_key(#[trigger] done[k]) != key@,
                decreases i - j + (if seen { 0int } else { 1int }),
            {
                if text_eq(&keys[j], &key) {
                    assert(line_key(done[j as int]) == key@);
                    seen = true;
                } else {
                    j += 1;
                }
            }
        }
        if !seen {
            let g = imp.to_merged();
            proof {
                let kept = if remove_duplicates { unique_lines(done) } else { done };
                let kept_next = if remove_duplicates { unique_lines(next) } else { next };
                assert(kept_next == kept.push(imp@));
                assert(groups(out@.push(g)) =~= groups(out@).push(g@));
                assert(contents(kept.push(imp@)) =~= contents(kept).push(imp@.content()));
            }
            out.push(g);
        }
        keys.push(key);
        i += 1;
    }
    assert(ds.take(imports.len() as int) == ds);
    if sort_imports {
        sorted_groups(&out)
    } else {
        out
    }
}

} // verus!
