//! Parsing one import line into a declaration.

use vstd::prelude::*;
use crate::chars::{
    begins_with, find, find_char, find_quote, first_at, first_of, index_of, is_ident, is_ident_char,
    last_at, last_of, lemma_first_of_is, lemma_index_of_some, occurs_at, padding, quotes,
    rfind_char, rfind_quote, slice_of, starts_with, strip, strip_end, strip_padding, trim,
    trim_chars,
};
use crate::lines::{lines, split_lines, texts};
use crate::model::{
    bindings, copy_text, declarations, opt_text, Binding, Declaration, ImportInfo, NamedImport,
};
use crate::text::chars_of;

verus! {

/// The pieces of `s` between the occurrences of `c`; one more piece than
/// there are occurrences.
pub open spec fn split(s: Seq<char>, c: char) -> Seq<Seq<char>>
    decreases s.len(),
    via split_decreases
{
    match first_of(s, set![c]) {
        Some(k) => seq![s.take(k)] + split(s.skip(k + 1), c),
        None => seq![s],
    }
}

#[via_fn]
proof fn split_decreases(s: Seq<char>, c: char) {
    if let Some(k) = first_of(s, set![c]) {
        assert(first_at(s, set![c], k));
    }
}

/// Whether the word `as` stands in `s` at index `i`: the two letters, with
/// no identifier character directly before or behind them.
pub open spec fn as_at(s: Seq<char>, i: int) -> bool {
    &&& 0 <= i
    &&& i + 2 <= s.len()
    &&& s[i] == 'a'
    &&& s[i + 1] == 's'
    &&& (i == 0 || !is_ident_char(s[i - 1]))
    &&& (i + 2 == s.len() || !is_ident_char(s[i + 2]))
}

/// Whether `i` is the index of the first word `as` in `s`.
pub open spec fn first_as(s: Seq<char>, i: int) -> bool {
    as_at(s, i) && forall|j: int| 0 <= j < i ==> !as_at(s, j)
}

/// The index of the first word `as` in `s`, if there is one.
pub open spec fn as_index(s: Seq<char>) -> Option<int> {
    if exists|i: int| first_as(s, i) {
        Some(choose|i: int| first_as(s, i))
    } else {
        None
    }
}

/// The first word `as` is unique.
pub proof fn lemma_as_index_is(s: Seq<char>, i: int)
    requires
        first_as(s, i),
    ensures
        as_index(s) == Some(i),
{
    let k = choose|k: int| first_as(s, k);
    if k < i {
        assert(!as_at(s, k));
    }
    if i < k {
        assert(!as_at(s, i));
    }
}

/// The binding that one item of a braced list stands for, if any: an item
/// of white space only stands for none, nor does one with nothing before
/// its word `as`.
pub open spec fn item_binding(item: Seq<char>) -> Option<Binding> {
    let t = trim(item);
    if t.len() == 0 {
        None
    } else {
        match as_index(t) {
            Some(k) => {
                let name = trim(t.take(k));
                if name.len() == 0 {
                    None
                } else {
                    Some(Binding { name, alias: Some(trim(t.skip(k + 2))) })
                }
            },
            None => Some(Binding { name: t, alias: None }),
        }
    }
}

/// The bindings that the items stand for, in order.
pub open spec fn item_bindings(items: Seq<Seq<char>>) -> Seq<Binding>
    decreases items.len(),
{
    if items.len() == 0 {
        Seq::empty()
    } else {
        match item_binding(items.last()) {
            Some(b) => item_bindings(items.drop_last()).push(b),
            None => item_bindings(items.drop_last()),
        }
    }
}

/// The bindings of the text between two braces: its items are separated by
/// commas.
pub open spec fn named_of(inner: Seq<char>) -> Seq<Binding> {
    item_bindings(split(inner, ','))
}

/// The pieces of `v` between the occurrences of `c`.
pub fn split_chars(v: &Vec<char>, c: char) -> (r: Vec<Vec<char>>)
    ensures
        texts(r@) == split(v@, c),
{
    let mut out: Vec<Vec<char>> = Vec::new();
    let mut start: usize = 0;
    let mut i: usize = 0;
    assert(v@.skip(0) == v@);
    assert(texts(out@) + split(v@, c) == split(v@, c));
    while i < v.len()
        invariant
            start <= i <= v.len(),
            split(v@, c) == texts(out@) + split(v@.skip(start as int), c),
            forall|j: int| start <= j < i ==> v@[j] != c,
        decreases v.len() - i,
    {
        if v[i] == c {
            let piece = slice_of(v, start, i);
            proof {
                let rest = v@.skip(start as int);
                let n = i - start;
                assert(first_at(rest, set![c], n));
                lemma_first_of_is(rest, set![c], n);
                assert(rest.take(n) == v@.subrange(start as int, i as int));
                assert(rest.skip(n + 1) == v@.skip(i + 1));
                assert(texts(out@.push(piece)) == texts(out@) + seq![piece@]);
            }
            out.push(piece);
            start = i + 1;
        }
        i += 1;
    }
    let piece = slice_of(v, start, v.len());
    proof {
        let rest = v@.skip(start as int);
        assert(piece@ == rest);
        assert(first_of(rest, set![c]) is None) by {
            if let Some(n) = first_of(rest, set![c]) {
                assert(first_at(rest, set![c], n));
            }
        }
        assert(texts(out@.push(piece)) == texts(out@) + seq![piece@]);
    }
    out.push(piece);
    out
}

/// The index of the first word `as` in `v`.
pub fn find_as(v: &Vec<char>) -> (r: Option<usize>)
    ensures
        r is Some == as_index(v@) is Some,
        r matches Some(i) ==> as_index(v@) == Some(i as int) && i + 2 <= v.len(),
{
    if v.len() < 2 {
        return None;
    }
    let mut i: usize = 0;
    while i < v.len() - 1
        invariant
            2 <= v.len(),
            i <= v.len() - 1,
            forall|j: int| 0 <= j < i ==> !as_at(v@, j),
        decreases v.len() - i,
    {
        if v[i] == 'a' && v[i + 1] == 's' && (i == 0 || !is_ident(v[i - 1])) && (i + 2 == v.len()
            || !is_ident(v[i + 2])) {
            proof {
                lemma_as_index_is(v@, i as int);
            }
            return Some(i);
        }
        i += 1;
    }
    None
}

/// The bindings of the text between two braces.
///
/// The items are separated by commas. An item of white space only is
/// passed over. In an item with the word `as`, what stands before the word,
/// without white space at either end, is the name, and what stands behind
/// it the alias; such an item is passed over if its name is empty. Any
/// other item is a name without an alias.
pub fn parse_named_imports(inner: &Vec<char>) -> (r: Vec<NamedImport>)
    ensures
        bindings(r@) == named_of(inner@),
{
    let items = split_chars(inner, ',');
    let mut named_imports: Vec<NamedImport> = Vec::new();
    let mut i: usize = 0;
    assert(bindings(named_imports@) =~= item_bindings(texts(items@).take(0)));
    while i < items.len()
        invariant
            i <= items.len(),
            bindings(named_imports@) == item_bindings(texts(items@).take(i as int)),
        decreases items.len() - i,
    {
        proof {
            let next = texts(items@).take(i + 1);
            assert(next.drop_last() == texts(items@).take(i as int));
            assert(next.last() == items@[i as int]@);
        }
        let item = trim_chars(&items[i]);
        if item.len() > 0 {
            let b = match find_as(&item) {
                Some(k) => {
                    let name = trim_chars(&slice_of(&item, 0, k));
                    let alias = trim_chars(&slice_of(&item, k + 2, item.len()));
                    if name.len() > 0 {
                        Some(NamedImport { name, alias: Some(alias) })
                    } else {
                        None
                    }
                },
                None => Some(NamedImport { name: item, alias: None }),
            };
            match b {
                Some(b) => {
                    assert(Some(b@) == item_binding(items@[i as int]@));
                    assert(bindings(named_imports@.push(b)) =~= bindings(named_imports@).push(b@));
                    named_imports.push(b);
                },
                None => {},
            }
        }
        i += 1;
    }
    assert(texts(items@).take(items.len() as int) == texts(items@));
    named_imports
}

/// The module named by the text behind the word `from`.
///
/// With a quote at two places of `region`, it is the text between the first
/// and the last quote. Otherwise white space, quotes and semicolons are
/// stripped from both ends of `region`, and what is left counts up to its
/// first semicolon, without white space at either end.
pub open spec fn source_of(region: Seq<char>) -> Seq<char> {
    let first = first_of(region, quotes());
    let last = last_of(region, quotes());
    if first is Some && last is Some && first->0 < last->0 {
        region.subrange(first->0 + 1, last->0)
    } else {
        let bare = strip(region, padding());
        match first_of(bare, set![';']) {
            Some(k) => trim(bare.take(k)),
            None => bare,
        }
    }
}

/// The module named by the text behind the word `from`.
pub fn extract_source_string(source_part: &Vec<char>) -> (r: Vec<char>)
    ensures
        r@ == source_of(source_part@),
{
    let quote_start = find_quote(source_part);
    let quote_end = rfind_quote(source_part);
    match (quote_start, quote_end) {
        (Some(start), Some(end)) => {
            proof {
                assert(first_at(source_part@, quotes(), start as int));
                assert(last_at(source_part@, quotes(), end as int));
            }
            if start < end {
                return slice_of(source_part, start + 1, end);
            }
        },
        _ => {},
    }
    let bare = strip_padding(source_part);
    match find_char(&bare, ';') {
        Some(semi_pos) => {
            assert(first_at(bare@, set![';'], semi_pos as int));
            assert(bare@.take(semi_pos as int) == bare@.subrange(0, semi_pos as int));
            trim_chars(&slice_of(&bare, 0, semi_pos))
        },
        None => bare,
    }
}

/// What stands between `import` and `from`.
pub ghost struct Clause {
    pub default_import: Option<Seq<char>>,
    pub named_imports: Seq<Binding>,
    pub namespace_import: Option<Seq<char>>,
}

/// The clause that `text` stands for, if it has one of the four shapes.
///
/// Without white space at either end, `text` is, in this order of
/// precedence: a namespace import, if it starts with `*` and holds the word
/// `as`, whose alias is what stands behind that word; a list of named
/// bindings, if it starts with `{` and ends with `}`; a default binding
/// before a list of named bindings, if it holds a `{` and, behind the first
/// one, a `}`: the default binding is what stands before the first `{`,
/// without white space at either end and then without commas at its end,
/// and the list reaches from the first `{` to the last `}`; a default
/// binding, if it is not empty and holds none of `{`, `}` and `*`.
pub open spec fn clause_of(text: Seq<char>) -> Option<Clause> {
    let part = trim(text);
    let open = first_of(part, set!['{']);
    let close = last_of(part, set!['}']);
    if part.len() == 0 {
        None
    } else if part[0] == '*' && as_index(part) is Some {
        Some(
            Clause {
                default_import: None,
                named_imports: Seq::empty(),
                namespace_import: Some(trim(part.skip(as_index(part)->0 + 2))),
            },
        )
    } else if part[0] == '{' && part.last() == '}' {
        Some(
            Clause {
                default_import: None,
                named_imports: named_of(part.subrange(1, part.len() - 1)),
                namespace_import: None,
            },
        )
    } else if open is Some && close is Some {
        if close->0 < open->0 {
            None
        } else {
            let head = strip_end(trim(part.take(open->0)), set![',']);
            Some(
                Clause {
                    default_import: if head.len() == 0 {
                        None
                    } else {
                        Some(head)
                    },
                    named_imports: named_of(part.subrange(open->0 + 1, close->0)),
                    namespace_import: None,
                },
            )
        }
    } else if open is None && close is None && first_of(part, set!['*']) is None {
        Some(Clause { default_import: Some(part), named_imports: Seq::empty(), namespace_import: None })
    } else {
        None
    }
}

/// The model of what `parse_import_clause` returns.
pub open spec fn clause_view(
    r: Option<(Option<Vec<char>>, Vec<NamedImport>, Option<Vec<char>>)>,
) -> Option<Clause> {
    match r {
        Some((default_import, named_imports, namespace_import)) => Some(
            Clause {
                default_import: opt_text(default_import),
                named_imports: bindings(named_imports@),
                namespace_import: opt_text(namespace_import),
            },
        ),
        None => None,
    }
}

/// `v` without commas at its end.
fn strip_commas_end(v: &Vec<char>) -> (r: Vec<char>)
    ensures
        r@ == strip_end(v@, set![',']),
{
    let mut hi: usize = v.len();
    assert(v@.subrange(0, hi as int) == v@);
    while hi > 0 && v[hi - 1] == ','
        invariant
            hi <= v.len(),
            strip_end(v@, set![',']) == strip_end(v@.subrange(0, hi as int), set![',']),
        decreases hi,
    {
        assert(v@.subrange(0, hi as int).drop_last() == v@.subrange(0, hi - 1));
        hi -= 1;
    }
    slice_of(v, 0, hi)
}

/// The clause between `import` and `from`: its default binding, its named
/// bindings and its namespace alias; `None` where the text has none of the
/// shapes of a clause.
pub fn parse_import_clause(import_part: &Vec<char>) -> (r: Option<
    (Option<Vec<char>>, Vec<NamedImport>, Option<Vec<char>>),
>)
    ensures
        clause_view(r) == clause_of(import_part@),
{
    let part = trim_chars(import_part);
    if part.len() == 0 {
        return None;
    }
    if part[0] == '*' {
        match find_as(&part) {
            Some(as_pos) => {
                let namespace = trim_chars(&slice_of(&part, as_pos + 2, part.len()));
                assert(part@.skip(as_pos + 2) == part@.subrange(as_pos + 2, part.len() as int));
                let named: Vec<NamedImport> = Vec::new();
                assert(bindings(named@) =~= Seq::<Binding>::empty());
                return Some((None, named, Some(namespace)));
            },
            None => {},
        }
    }
    if part[0] == '{' && part[part.len() - 1] == '}' {
        let named = parse_named_imports(&slice_of(&part, 1, part.len() - 1));
        return Some((None, named, None));
    }
    let brace_start = find_char(&part, '{');
    let brace_end = rfind_char(&part, '}');
    match (brace_start, brace_end) {
        (Some(open), Some(close)) => {
            proof {
                assert(first_at(part@, set!['{'], open as int));
                assert(last_at(part@, set!['}'], close as int));
            }
            if close < open {
                return None;
            }
            assert(part@.take(open as int) == part@.subrange(0, open as int));
            let head = strip_commas_end(&trim_chars(&slice_of(&part, 0, open)));
            let default_import = if head.len() > 0 {
                Some(head)
            } else {
                None
            };
            let named = parse_named_imports(&slice_of(&part, open + 1, close));
            Some((default_import, named, None))
        },
        (None, None) => {
            if find_char(&part, '*').is_none() {
                let named: Vec<NamedImport> = Vec::new();
                assert(bindings(named@) =~= Seq::<Binding>::empty());
                Some((Some(part), named, None))
            } else {
                None
            }
        },
        _ => None,
    }
}

/// The declaration that `line` stands for, as line `n` of its text, if it
/// is an import line that can be read.
///
/// The line has to begin with `import` and to hold `from`. What stands
/// between `import` and the first `from` is the clause, what stands behind
/// that `from` names the module. There is no declaration where the module's
/// name comes out empty or the clause has none of its shapes.
pub open spec fn declaration_of(line: Seq<char>, n: nat) -> Option<Declaration> {
    if !begins_with(line, "import"@) {
        None
    } else {
        match index_of(line, "from"@) {
            None => None,
            Some(k) => {
                let source = source_of(trim(line.skip(k + "from"@.len())));
                match clause_of(line.subrange("import"@.len() as int, k)) {
                    Some(clause) if source.len() > 0 => Some(
                        Declaration {
                            original_line: line,
                            source,
                            default_import: clause.default_import,
                            named_imports: clause.named_imports,
                            namespace_import: clause.namespace_import,
                            line_number: n,
                        },
                    ),
                    _ => None,
                }
            },
        }
    }
}

/// The model of an optional declaration.
pub open spec fn opt_declaration(r: Option<ImportInfo>) -> Option<Declaration> {
    match r {
        Some(info) => Some(info@),
        None => None,
    }
}

/// In a line that begins with `import`, no `from` begins before the end of
/// that word.
pub proof fn lemma_from_behind_import(line: Seq<char>, k: int)
    requires
        begins_with(line, "import"@),
        occurs_at(line, "from"@, k),
    ensures
        "import"@.len() <= k,
{
    reveal_strlit("import");
    reveal_strlit("from");
    if k < 6 {
        assert(line.subrange(0, 6)[k] == "import"@[k]);
        assert(line.subrange(k, k + 4)[0] == "from"@[0]);
    }
}

/// A declaration names its module, and has either a namespace alias or
/// default and named bindings.
pub proof fn lemma_declaration_well_formed(line: Seq<char>, n: nat)
    ensures
        declaration_of(line, n) matches Some(d) ==> d.well_formed() && d.original_line == line
            && d.line_number == n,
{
}

/// Parses one import line, given without white space at either end, as
/// line `line_num` of its text.
pub fn parse_import_line(line: &Vec<char>, line_num: usize) -> (r: Option<ImportInfo>)
    ensures
        opt_declaration(r) == declaration_of(line@, line_num as nat),
        r matches Some(info) ==> info@.well_formed(),
{
    let import_word = chars_of("import");
    let from_word = chars_of("from");
    if !starts_with(line, &import_word) {
        return None;
    }
    let from_pos = match find(line, &from_word) {
        Some(k) => k,
        None => {
            return None;
        },
    };
    proof {
        lemma_index_of_some(line@, from_word@);
        lemma_from_behind_import(line@, from_pos as int);
        lemma_declaration_well_formed(line@, line_num as nat);
        assert(line@.skip(from_pos + from_word@.len()) == line@.subrange(
            from_pos + from_word@.len(),
            line@.len() as int,
        ));
    }
    let import_part = slice_of(line, import_word.len(), from_pos);
    let source_part = trim_chars(&slice_of(line, from_pos + from_word.len(), line.len()));
    let source = extract_source_string(&source_part);
    if source.len() == 0 {
        return None;
    }
    match parse_import_clause(&import_part) {
        Some((default_import, named_imports, namespace_import)) => Some(
            ImportInfo {
                original_line: copy_text(line),
                source,
                default_import,
                named_imports,
                namespace_import,
                line_number: line_num,
            },
        ),
        None => None,
    }
}

/// The declaration that line `i` of `ls` stands for, if any.
pub open spec fn line_declaration(ls: Seq<Seq<char>>, i: int) -> Option<Declaration> {
    declaration_of(trim(ls[i]), i as nat)
}

/// The declarations that the first `n` lines of `ls` stand for, in order.
pub open spec fn declarations_upto(ls: Seq<Seq<char>>, n: int) -> Seq<Declaration>
    decreases n,
{
    if n <= 0 {
        Seq::empty()
    } else {
        match line_declaration(ls, n - 1) {
            Some(d) => declarations_upto(ls, n - 1).push(d),
            None => declarations_upto(ls, n - 1),
        }
    }
}

/// The declarations that the lines of `code` stand for, in order.
pub open spec fn parse_text(code: Seq<char>) -> Seq<Declaration> {
    declarations_upto(lines(code), lines(code).len() as int)
}

/// The declarations of all import lines of `code` that can be read, in
/// the order of the lines.
pub fn parse_imports(code: &Vec<char>) -> (r: Vec<ImportInfo>)
    ensures
        declarations(r@) == parse_text(code@),
{
    let ls = split_lines(code);
    let mut imports: Vec<ImportInfo> = Vec::new();
    let mut i: usize = 0;
    assert(declarations(imports@) =~= declarations_upto(lines(code@), 0));
    while i < ls.len()
        invariant
            i <= ls.len(),
            texts(ls@) == lines(code@),
            declarations(imports@) == declarations_upto(lines(code@), i as int),
        decreases ls.len() - i,
    {
        let trimmed = trim_chars(&ls[i]);
        assert(texts(ls@)[i as int] == ls@[i as int]@);
        match parse_import_line(&trimmed, i) {
            Some(info) => {
                assert(declarations(imports@.push(info)) =~= declarations(imports@).push(info@));
                imports.push(info);
            },
            None => {},
        }
        i += 1;
    }
    imports
}

} // verus!
