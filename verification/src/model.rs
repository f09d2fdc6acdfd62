//! The declarations an import line is parsed into, and the groups they are
//! merged into.

use vstd::prelude::*;
use crate::chars::slice_of;

verus! {

/// One binding of a braced list: `name`, or `name as alias`.
#[derive(Debug, Clone, PartialEq, Eq)]
pub struct NamedImport {
    pub name: Vec<char>,
    pub alias: Option<Vec<char>>,
}

/// One recognised import line.
#[derive(Debug, Clone, PartialEq, Eq)]
pub struct ImportInfo {
    /// The line as it was parsed, without white space at either end.
    pub original_line: Vec<char>,
    /// The module that is imported from; never empty.
    pub source: Vec<char>,
    pub default_import: Option<Vec<char>>,
    pub named_imports: Vec<NamedImport>,
    pub namespace_import: Option<Vec<char>>,
    /// The index of the line in the source text.
    pub line_number: usize,
}

/// What is imported from one module: the content of one output line.
#[derive(Debug, Clone, PartialEq, Eq)]
pub struct MergedImport {
    pub source: Vec<char>,
    pub default_import: Option<Vec<char>>,
    pub named_imports: Vec<NamedImport>,
    pub namespace_import: Option<Vec<char>>,
}

/// Which steps `optimize` takes.
#[derive(Debug, Clone, Copy, PartialEq, Eq)]
pub struct OptimizationRules {
    pub sort_imports: bool,
    pub remove_duplicates: bool,
    pub merge_imports: bool,
}

impl Default for OptimizationRules {
    /// The rules with none set.
    fn default() -> (r: Self)
        ensures
            r == (OptimizationRules {
                sort_imports: false,
                remove_duplicates: false,
                merge_imports: false,
            }),
    {
        OptimizationRules { sort_imports: false, remove_duplicates: false, merge_imports: false }
    }
}

/// The model of a `NamedImport`.
pub ghost struct Binding {
    pub name: Seq<char>,
    pub alias: Option<Seq<char>>,
}

/// The model of an `ImportInfo`.
pub ghost struct Declaration {
    pub original_line: Seq<char>,
    pub source: Seq<char>,
    pub default_import: Option<Seq<char>>,
    pub named_imports: Seq<Binding>,
    pub namespace_import: Option<Seq<char>>,
    pub line_number: nat,
}

/// The model of a `MergedImport`.
pub ghost struct Group {
    pub source: Seq<char>,
    pub default_import: Option<Seq<char>>,
    pub named_imports: Seq<Binding>,
    pub namespace_import: Option<Seq<char>>,
}

/// The model of an optional text.
pub open spec fn opt_text(o: Option<Vec<char>>) -> Option<Seq<char>> {
    match o {
        Some(v) => Some(v@),
        None => None,
    }
}

/// The models of a list of bindings.
pub open spec fn bindings(v: Seq<NamedImport>) -> Seq<Binding> {
    Seq::new(v.len(), |i: int| v[i]@)
}

/// The models of a list of declarations.
pub open spec fn declarations(v: Seq<ImportInfo>) -> Seq<Declaration> {
    Seq::new(v.len(), |i: int| v[i]@)
}

/// The models of a list of groups.
pub open spec fn groups(v: Seq<MergedImport>) -> Seq<Group> {
    Seq::new(v.len(), |i: int| v[i]@)
}

impl View for NamedImport {
    type V = Binding;

    open spec fn view(&self) -> Binding {
        Binding { name: self.name@, alias: opt_text(self.alias) }
    }
}

impl View for ImportInfo {
    type V = Declaration;

    open spec fn view(&self) -> Declaration {
        Declaration {
            original_line: self.original_line@,
            source: self.source@,
            default_import: opt_text(self.default_import),
            named_imports: bindings(self.named_imports@),
            namespace_import: opt_text(self.namespace_import),
            line_number: self.line_number as nat,
        }
    }
}

impl View for MergedImport {
    type V = Group;

    open spec fn view(&self) -> Group {
        Group {
            source: self.source@,
            default_import: opt_text(self.default_import),
            named_imports: bindings(self.named_imports@),
            namespace_import: opt_text(self.namespace_import),
        }
    }
}

impl Declaration {
    /// What the declaration imports, without its place in the source text.
    pub open spec fn content(self) -> Group {
        Group {
            source: self.source,
            default_import: self.default_import,
            named_imports: self.named_imports,
            namespace_import: self.namespace_import,
        }
    }

    /// Whether the declaration names a module and keeps a namespace import
    /// apart from default and named bindings.
    pub open spec fn well_formed(self) -> bool {
        &&& self.source.len() > 0
        &&& self.namespace_import is Some ==> self.default_import is None
            && self.named_imports.len() == 0
    }
}

/// A copy of `v`.
pub fn copy_text(v: &Vec<char>) -> (r: Vec<char>)
    ensures
        r@ == v@,
{
    let r = slice_of(v, 0, v.len());
    assert(v@.subrange(0, v.len() as int) == v@);
    r
}

/// A copy of `o`.
pub fn copy_opt_text(o: &Option<Vec<char>>) -> (r: Option<Vec<char>>)
    ensures
        opt_text(r) == opt_text(*o),
{
    match o {
        Some(v) => Some(copy_text(v)),
        None => None,
    }
}

impl NamedImport {
    /// A copy of the binding.
    pub fn copy(&self) -> (r: NamedImport)
        ensures
            r@ == self@,
    {
        NamedImport { name: copy_text(&self.name), alias: copy_opt_text(&self.alias) }
    }
}

/// A copy of `v`.
pub fn copy_bindings(v: &Vec<NamedImport>) -> (r: Vec<NamedImport>)
    ensures
        bindings(r@) == bindings(v@),
{
    let mut r: Vec<NamedImport> = Vec::new();
    let mut i: usize = 0;
    while i < v.len()
        invariant
            i <= v.len(),
            r.len() == i,
            forall|j: int| 0 <= j < i ==> r@[j]@ == v@[j]@,
        decreases v.len() - i,
    {
        r.push(v[i].copy());
        i += 1;
    }
    assert(bindings(r@) =~= bindings(v@));
    r
}

impl ImportInfo {
    /// What the declaration imports, as a group of its own.
    pub fn to_merged(&self) -> (r: MergedImport)
        ensures
            r@ == self@.content(),
    {
        MergedImport {
            source: copy_text(&self.source),
            default_import: copy_opt_text(&self.default_import),
            named_imports: copy_bindings(&self.named_imports),
            namespace_import: copy_opt_text(&self.namespace_import),
        }
    }
}

impl MergedImport {
    /// A copy of the group.
    pub fn copy(&self) -> (r: MergedImport)
        ensures
            r@ == self@,
    {
        MergedImport {
            source: copy_text(&self.source),
            default_import: copy_opt_text(&self.default_import),
            named_imports: copy_bindings(&self.named_imports),
            namespace_import: copy_opt_text(&self.namespace_import),
        }
    }
}

} // verus!
