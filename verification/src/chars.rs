//! Character classes and searches over sequences of characters.
//!
//! Text is modelled as `Seq<char>`; the executable functions work on
//! `Vec<char>` and return fresh vectors.

use vstd::prelude::*;

verus! {

/// Whether `c` has the Unicode property `White_Space`.
pub open spec fn is_space(c: char) -> bool {
    let n = c as u32;
    ||| 0x09 <= n <= 0x0D
    ||| n == 0x20
    ||| n == 0x85
    ||| n == 0xA0
    ||| n == 0x1680
    ||| 0x2000 <= n <= 0x200A
    ||| n == 0x2028
    ||| n == 0x2029
    ||| n == 0x202F
    ||| n == 0x205F
    ||| n == 0x3000
}

/// Whether `c` is a single or a double quote.
pub open spec fn is_quote(c: char) -> bool {
    c == '\'' || c == '"'
}

/// Whether `c` can be part of an identifier: an ASCII letter or digit, `_`,
/// `$`, or any character outside ASCII.
pub open spec fn is_ident_char(c: char) -> bool {
    ||| 'a' <= c <= 'z'
    ||| 'A' <= c <= 'Z'
    ||| '0' <= c <= '9'
    ||| c == '_'
    ||| c == '$'
    ||| c as u32 >= 0x80
}

/// The white-space characters, as a set.
pub open spec fn spaces() -> Set<char> {
    Set::new(|c: char| is_space(c))
}

/// What is stripped from both ends of a module specifier that has no pair
/// of quotes: white space, quotes and semicolons.
pub open spec fn padding() -> Set<char> {
    Set::new(|c: char| is_space(c) || is_quote(c) || c == ';')
}

/// Whether `c` is white space.
pub fn is_space_char(c: char) -> (b: bool)
    ensures
        b == is_space(c),
{
    let n: u32 = c as u32;
    (0x09 <= n && n <= 0x0D) || n == 0x20 || n == 0x85 || n == 0xA0 || n == 0x1680 || (0x2000 <= n
        && n <= 0x200A) || n == 0x2028 || n == 0x2029 || n == 0x202F || n == 0x205F || n == 0x3000
}

/// Whether `c` is a single or a double quote.
pub fn is_quote_char(c: char) -> (b: bool)
    ensures
        b == is_quote(c),
{
    c == '\'' || c == '"'
}

/// Whether `c` can be part of an identifier.
pub fn is_ident(c: char) -> (b: bool)
    ensures
        b == is_ident_char(c),
{
    ('a' <= c && c <= 'z') || ('A' <= c && c <= 'Z') || ('0' <= c && c <= '9') || c == '_' || c
        == '$' || c as u32 >= 0x80
}

fn is_padding_char(c: char) -> (b: bool)
    ensures
        b == padding().contains(c),
{
    is_space_char(c) || is_quote_char(c) || c == ';'
}

/// `s` without its longest prefix of characters of `cs`.
pub open spec fn strip_start(s: Seq<char>, cs: Set<char>) -> Seq<char>
    decreases s.len(),
{
    if s.len() > 0 && cs.contains(s[0]) {
        strip_start(s.drop_first(), cs)
    } else {
        s
    }
}

/// `s` without its longest suffix of characters of `cs`.
pub open spec fn strip_end(s: Seq<char>, cs: Set<char>) -> Seq<char>
    decreases s.len(),
{
    if s.len() > 0 && cs.contains(s.last()) {
        strip_end(s.drop_last(), cs)
    } else {
        s
    }
}

/// `s` without the characters of `cs` at either end.
pub open spec fn strip(s: Seq<char>, cs: Set<char>) -> Seq<char> {
    strip_end(strip_start(s, cs), cs)
}

/// `s` without white space at either end.
pub open spec fn trim(s: Seq<char>) -> Seq<char> {
    strip(s, spaces())
}

/// Whether `s` is empty or white space only.
pub open spec fn is_blank(s: Seq<char>) -> bool {
    trim(s).len() == 0
}

/// A copy of the characters of `v` from `lo` up to `hi`.
pub fn slice_of(v: &Vec<char>, lo: usize, hi: usize) -> (r: Vec<char>)
    requires
        lo <= hi <= v.len(),
    ensures
        r@ == v@.subrange(lo as int, hi as int),
{
    let mut r: Vec<char> = Vec::new();
    let mut i: usize = lo;
    while i < hi
        invariant
            lo <= i <= hi <= v.len(),
            r@ == v@.subrange(lo as int, i as int),
        decreases hi - i,
    {
        r.push(v[i]);
        i += 1;
    }
    r
}

fn in_class(c: char, wide: bool) -> (b: bool)
    ensures
        b == (if wide {
            padding()
        } else {
            spaces()
        }).contains(c),
{
    if wide {
        is_padding_char(c)
    } else {
        is_space_char(c)
    }
}

/// Strips white space (or, if `wide`, the padding of a specifier) from both
/// ends of `v`.
fn strip_class(v: &Vec<char>, wide: bool) -> (r: Vec<char>)
    ensures
        r@ == strip(v@, if wide { padding() } else { spaces() }),
{
    let ghost cs = if wide { padding() } else { spaces() };
    let mut lo: usize = 0;
    assert(v@.skip(0) == v@);
    while lo < v.len() && in_class(v[lo], wide)
        invariant
            lo <= v.len(),
            cs == (if wide { padding() } else { spaces() }),
            strip_start(v@, cs) == strip_start(v@.skip(lo as int), cs),
        decreases v.len() - lo,
    {
        assert(v@.skip(lo as int).drop_first() == v@.skip(lo + 1));
        lo += 1;
    }
    assert(strip_start(v@, cs) == v@.skip(lo as int));
    let mut hi: usize = v.len();
    assert(v@.subrange(lo as int, hi as int) == v@.skip(lo as int));
    while lo < hi && in_class(v[hi - 1], wide)
        invariant
            lo <= hi <= v.len(),
            cs == (if wide { padding() } else { spaces() }),
            strip(v@, cs) == strip_end(v@.subrange(lo as int, hi as int), cs),
        decreases hi - lo,
    {
        assert(v@.subrange(lo as int, hi as int).drop_last() == v@.subrange(
            lo as int,
            hi - 1,
        ));
        hi -= 1;
    }
    slice_of(v, lo, hi)
}

/// `v` without white space at either end.
pub fn trim_chars(v: &Vec<char>) -> (r: Vec<char>)
    ensures
        r@ == trim(v@),
{
    strip_class(v, false)
}

/// `v` without white space, quotes and semicolons at either end.
pub fn strip_padding(v: &Vec<char>) -> (r: Vec<char>)
    ensures
        r@ == strip(v@, padding()),
{
    strip_class(v, true)
}

/// Whether `pat` stands in `s` at index `i`.
pub open spec fn occurs_at(s: Seq<char>, pat: Seq<char>, i: int) -> bool {
    0 <= i && i + pat.len() <= s.len() && s.subrange(i, i + pat.len()) == pat
}

/// Whether `i` is the index of the first occurrence of `pat` in `s`.
pub open spec fn first_occurrence(s: Seq<char>, pat: Seq<char>, i: int) -> bool {
    occurs_at(s, pat, i) && forall|j: int| 0 <= j < i ==> !occurs_at(s, pat, j)
}

/// The index of the first occurrence of `pat` in `s`, if there is one.
pub open spec fn index_of(s: Seq<char>, pat: Seq<char>) -> Option<int> {
    if exists|i: int| first_occurrence(s, pat, i) {
        Some(choose|i: int| first_occurrence(s, pat, i))
    } else {
        None
    }
}

/// Whether `s` begins with `pat`.
pub open spec fn begins_with(s: Seq<char>, pat: Seq<char>) -> bool {
    occurs_at(s, pat, 0)
}

/// Whether `i` is the least index of `s` that holds a character of `cs`.
pub open spec fn first_at(s: Seq<char>, cs: Set<char>, i: int) -> bool {
    0 <= i < s.len() && cs.contains(s[i]) && forall|j: int| 0 <= j < i ==> !cs.contains(s[j])
}

/// Whether `i` is the greatest index of `s` that holds a character of `cs`.
pub open spec fn last_at(s: Seq<char>, cs: Set<char>, i: int) -> bool {
    0 <= i < s.len() && cs.contains(s[i]) && forall|j: int| i < j < s.len() ==> !cs.contains(s[j])
}

/// The least index of `s` that holds a character of `cs`, if there is one.
pub open spec fn first_of(s: Seq<char>, cs: Set<char>) -> Option<int> {
    if exists|i: int| first_at(s, cs, i) {
        Some(choose|i: int| first_at(s, cs, i))
    } else {
        None
    }
}

/// The greatest index of `s` that holds a character of `cs`, if there is one.
pub open spec fn last_of(s: Seq<char>, cs: Set<char>) -> Option<int> {
    if exists|i: int| last_at(s, cs, i) {
        Some(choose|i: int| last_at(s, cs, i))
    } else {
        None
    }
}

/// The two quote characters, as a set.
pub open spec fn quotes() -> Set<char> {
    Set::new(|c: char| is_quote(c))
}

/// The first occurrence is unique.
pub proof fn lemma_index_of_is(s: Seq<char>, pat: Seq<char>, i: int)
    requires
        first_occurrence(s, pat, i),
    ensures
        index_of(s, pat) == Some(i),
{
    let k = choose|k: int| first_occurrence(s, pat, k);
    if k < i {
        assert(!occurs_at(s, pat, k));
    }
    if i < k {
        assert(!occurs_at(s, pat, i));
    }
}

/// Without an occurrence there is no first one.
pub proof fn lemma_index_of_none(s: Seq<char>, pat: Seq<char>)
    requires
        forall|j: int| !occurs_at(s, pat, j),
    ensures
        index_of(s, pat) is None,
{
}

/// What `index_of` returns is a first occurrence.
pub proof fn lemma_index_of_some(s: Seq<char>, pat: Seq<char>)
    ensures
        index_of(s, pat) matches Some(i) ==> first_occurrence(s, pat, i),
        index_of(s, pat) is None ==> forall|j: int| !occurs_at(s, pat, j),
{
    if index_of(s, pat) is None {
        assert forall|j: int| !occurs_at(s, pat, j) by {
            if occurs_at(s, pat, j) {
                lemma_occurrence_has_first(s, pat, j);
            }
        }
    }
}

/// Where `pat` occurs at all, it has a first occurrence.
pub proof fn lemma_occurrence_has_first(s: Seq<char>, pat: Seq<char>, j: int)
    requires
        occurs_at(s, pat, j),
    ensures
        exists|i: int| 0 <= i <= j && first_occurrence(s, pat, i),
    decreases j,
{
    if forall|k: int| 0 <= k < j ==> !occurs_at(s, pat, k) {
        assert(first_occurrence(s, pat, j));
    } else {
        let k = choose|k: int| 0 <= k < j && occurs_at(s, pat, k);
        lemma_occurrence_has_first(s, pat, k);
    }
}

/// The least index that holds a character of `cs` is unique.
pub proof fn lemma_first_of_is(s: Seq<char>, cs: Set<char>, i: int)
    requires
        first_at(s, cs, i),
    ensures
        first_of(s, cs) == Some(i),
{
    let k = choose|k: int| first_at(s, cs, k);
    if k < i {
        assert(!cs.contains(s[k]));
    }
    if i < k {
        assert(!cs.contains(s[i]));
    }
}

/// The greatest index that holds a character of `cs` is unique.
pub proof fn lemma_last_of_is(s: Seq<char>, cs: Set<char>, i: int)
    requires
        last_at(s, cs, i),
    ensures
        last_of(s, cs) == Some(i),
{
    let k = choose|k: int| last_at(s, cs, k);
    if k < i {
        assert(!cs.contains(s[i]));
    }
    if i < k {
        assert(!cs.contains(s[k]));
    }
}

/// Whether `pat` stands in `v` at index `i`.
pub fn matches_at(v: &Vec<char>, i: usize, pat: &Vec<char>) -> (b: bool)
    ensures
        b == occurs_at(v@, pat@, i as int),
{
    if pat.len() > v.len() || i > v.len() - pat.len() {
        return false;
    }
    let mut k: usize = 0;
    while k < pat.len()
        invariant
            k <= pat.len(),
            i + pat.len() <= v.len(),
            forall|j: int| 0 <= j < k ==> v@[i + j] == pat@[j],
        decreases pat.len() - k,
    {
        if v[i + k] != pat[k] {
            assert(v@.subrange(i as int, i + pat.len())[k as int] != pat@[k as int]);
            return false;
        }
        k += 1;
    }
    assert(v@.subrange(i as int, i + pat.len()) =~= pat@);
    true
}

/// Whether `v` begins with `pat`.
pub fn starts_with(v: &Vec<char>, pat: &Vec<char>) -> (b: bool)
    ensures
        b == begins_with(v@, pat@),
{
    matches_at(v, 0, pat)
}

/// The index of the first occurrence of `pat` in `v`.
pub fn find(v: &Vec<char>, pat: &Vec<char>) -> (r: Option<usize>)
    ensures
        r is Some == index_of(v@, pat@) is Some,
        r matches Some(i) ==> index_of(v@, pat@) == Some(i as int),
{
    let mut i: usize = 0;
    while i < v.len()
        invariant
            i <= v.len(),
            forall|j: int| 0 <= j < i ==> !occurs_at(v@, pat@, j),
        decreases v.len() - i,
    {
        if matches_at(v, i, pat) {
            proof {
                lemma_index_of_is(v@, pat@, i as int);
            }
            return Some(i);
        }
        i += 1;
    }
    if matches_at(v, i, pat) {
        proof {
            lemma_index_of_is(v@, pat@, i as int);
        }
        return Some(i);
    }
    proof {
        lemma_index_of_none(v@, pat@);
    }
    None
}

fn is_either(c: char, a: char, b: char) -> (r: bool)
    ensures
        r == (c == a || c == b),
{
    c == a || c == b
}

/// The least index of `v` that holds `a` or `b`.
fn find_either(v: &Vec<char>, a: char, b: char) -> (r: Option<usize>)
    ensures
        r is Some == first_of(v@, set![a, b]) is Some,
        r matches Some(i) ==> first_of(v@, set![a, b]) == Some(i as int),
{
    let ghost cs = set![a, b];
    let mut i: usize = 0;
    while i < v.len()
        invariant
            i <= v.len(),
            cs == set![a, b],
            forall|j: int| 0 <= j < i ==> !cs.contains(v@[j]),
        decreases v.len() - i,
    {
        if is_either(v[i], a, b) {
            proof {
                lemma_first_of_is(v@, cs, i as int);
            }
            return Some(i);
        }
        i += 1;
    }
    None
}

/// The greatest index of `v` that holds `a` or `b`.
fn rfind_either(v: &Vec<char>, a: char, b: char) -> (r: Option<usize>)
    ensures
        r is Some == last_of(v@, set![a, b]) is Some,
        r matches Some(i) ==> last_of(v@, set![a, b]) == Some(i as int),
{
    let ghost cs = set![a, b];
    let mut i: usize = v.len();
    while i > 0
        invariant
            i <= v.len(),
            cs == set![a, b],
            forall|j: int| i <= j < v.len() ==> !cs.contains(v@[j]),
        decreases i,
    {
        i -= 1;
        if is_either(v[i], a, b) {
            proof {
                lemma_last_of_is(v@, cs, i as int);
            }
            return Some(i);
        }
    }
    None
}

/// The index of the first `c` in `v`.
pub fn find_char(v: &Vec<char>, c: char) -> (r: Option<usize>)
    ensures
        r is Some == first_of(v@, set![c]) is Some,
        r matches Some(i) ==> first_of(v@, set![c]) == Some(i as int),
{
    assert(set![c, c] =~= set![c]);
    find_either(v, c, c)
}

/// The index of the last `c` in `v`.
pub fn rfind_char(v: &Vec<char>, c: char) -> (r: Option<usize>)
    ensures
        r is Some == last_of(v@, set![c]) is Some,
        r matches Some(i) ==> last_of(v@, set![c]) == Some(i as int),
{
    assert(set![c, c] =~= set![c]);
    rfind_either(v, c, c)
}

/// The index of the first quote in `v`.
pub fn find_quote(v: &Vec<char>) -> (r: Option<usize>)
    ensures
        r is Some == first_of(v@, quotes()) is Some,
        r matches Some(i) ==> first_of(v@, quotes()) == Some(i as int),
{
    assert(set!['\'', '"'] =~= quotes());
    find_either(v, '\'', '"')
}

/// The index of the last quote in `v`.
pub fn rfind_quote(v: &Vec<char>) -> (r: Option<usize>)
    ensures
        r is Some == last_of(v@, quotes()) is Some,
        r matches Some(i) ==> last_of(v@, quotes()) == Some(i as int),
{
    assert(set!['\'', '"'] =~= quotes());
    rfind_either(v, '\'', '"')
}

proof fn lemma_strip_start_padded(lead: Seq<char>, rest: Seq<char>, cs: Set<char>)
    requires
        forall|i: int| 0 <= i < lead.len() ==> cs.contains(lead[i]),
        rest.len() > 0,
        !cs.contains(rest[0]),
    ensures
        strip_start(lead + rest, cs) == rest,
    decreases lead.len(),
{
    if lead.len() > 0 {
        assert((lead + rest).drop_first() =~= lead.drop_first() + rest);
        assert((lead + rest)[0] == lead[0]);
        lemma_strip_start_padded(lead.drop_first(), rest, cs);
    } else {
        assert(lead + rest =~= rest);
    }
}

proof fn lemma_strip_end_padded(rest: Seq<char>, tail: Seq<char>, cs: Set<char>)
    requires
        forall|i: int| 0 <= i < tail.len() ==> cs.contains(tail[i]),
        rest.len() > 0,
        !cs.contains(rest.last()),
    ensures
        strip_end(rest + tail, cs) == rest,
    decreases tail.len(),
{
    if tail.len() > 0 {
        assert((rest + tail).drop_last() =~= rest + tail.drop_last());
        assert((rest + tail).last() == tail.last());
        lemma_strip_end_padded(rest, tail.drop_last(), cs);
    } else {
        assert(rest + tail =~= rest);
    }
}

/// Stripping takes away what surrounds a text that neither begins nor ends
/// with a character of `cs`, if only characters of `cs` surround it.
pub proof fn lemma_strip_padded(lead: Seq<char>, core: Seq<char>, tail: Seq<char>, cs: Set<char>)
    requires
        forall|i: int| 0 <= i < lead.len() ==> cs.contains(lead[i]),
        forall|i: int| 0 <= i < tail.len() ==> cs.contains(tail[i]),
        core.len() > 0,
        !cs.contains(core[0]),
        !cs.contains(core.last()),
    ensures
        strip(lead + core + tail, cs) == core,
{
    assert(lead + core + tail =~= lead + (core + tail));
    lemma_strip_start_padded(lead, core + tail, cs);
    lemma_strip_end_padded(core, tail, cs);
}

} // verus!
