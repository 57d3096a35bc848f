//! Character-sequence helpers shared by the parsing and resolution stages.

use vstd::prelude::*;
use vstd::string::*;

verus! {

/// The `::` path separator.
pub open spec fn sep() -> Seq<char> {
    seq![':', ':']
}

/// `prefix::name`, or `name` alone when the prefix is empty.
pub open spec fn join_path(prefix: Seq<char>, name: Seq<char>) -> Seq<char> {
    if prefix.len() == 0 {
        name
    } else {
        prefix + sep() + name
    }
}

/// Whether `s` holds the separator at position `i`.
pub open spec fn sep_at(s: Seq<char>, i: int) -> bool {
    0 <= i && i + 1 < s.len() && s[i] == ':' && s[i + 1] == ':'
}

/// Whether `s` holds the separator anywhere.
pub open spec fn has_sep(s: Seq<char>) -> bool {
    exists|i: int| #[trigger] sep_at(s, i)
}

/// Position of the first separator at or after `i`, or the length when none.
pub open spec fn find_sep_from(s: Seq<char>, i: int) -> int
    decreases s.len() - i,
{
    if i < 0 || i + 1 >= s.len() {
        s.len() as int
    } else if sep_at(s, i) {
        i
    } else {
        find_sep_from(s, i + 1)
    }
}

/// The part of a path before its first separator.
pub open spec fn first_segment(s: Seq<char>) -> Seq<char> {
    s.subrange(0, find_sep_from(s, 0))
}

/// Position of the last separator that starts before `i`, or -1 when none.
pub open spec fn rfind_sep_before(s: Seq<char>, i: int) -> int
    decreases i,
{
    if i <= 0 {
        -1
    } else if sep_at(s, i - 1) {
        i - 1
    } else {
        rfind_sep_before(s, i - 1)
    }
}

/// The part of a path after its last separator.
pub open spec fn last_segment(s: Seq<char>) -> Seq<char> {
    let k = rfind_sep_before(s, s.len() as int);
    if k < 0 {
        s
    } else {
        s.subrange(k + 2, s.len() as int)
    }
}

/// Whether `s` begins with `p`.
pub open spec fn starts_with(s: Seq<char>, p: Seq<char>) -> bool {
    p.len() <= s.len() && s.subrange(0, p.len() as int) == p
}

/// Relies on `str::chars`: it yields the characters of the string in order.
#[verifier::external_body]
pub(crate) fn chars_of(s: &str) -> (r: Vec<char>)
    ensures
        r@ == s@,
{
    s.chars().collect()
}

/// Relies on `FromIterator<char>` for `String`: the characters are kept in order.
#[verifier::external_body]
pub(crate) fn string_of(v: &[char]) -> (r: String)
    ensures
        r@ == v@,
{
    v.iter().collect()
}

/// A copy of a string.
pub fn copy_string(s: &String) -> (r: String)
    ensures
        r@ == s@,
{
    s.clone()
}

/// The path `prefix::name`, or `name` when the prefix is empty.
pub fn join_path_exec(prefix: &str, name: &str) -> (r: String)
    ensures
        r@ == join_path(prefix@, name@),
{
    if prefix.is_empty() {
        String::from_str(name)
    } else {
        let mut r = String::from_str(prefix);
        proof {
            reveal_strlit("::");
        }
        r.append("::");
        r.append(name);
        assert(r@ =~= prefix@ + sep() + name@);
        r
    }
}

/// Whether the characters of `s` start with those of `p`.
pub fn starts_with_exec(s: &[char], p: &[char]) -> (r: bool)
    ensures
        r == starts_with(s@, p@),
{
    if p.len() > s.len() {
        return false;
    }
    let mut i: usize = 0;
    while i < p.len()
        invariant
            p@.len() <= s@.len(),
            i <= p@.len(),
            forall|k: int| 0 <= k < i ==> s@[k] == p@[k],
        decreases p@.len() - i,
    {
        if s[i] != p[i] {
            assert(s@.subrange(0, p@.len() as int)[i as int] != p@[i as int]);
            return false;
        }
        i = i + 1;
    }
    assert(s@.subrange(0, p@.len() as int) =~= p@);
    true
}

/// Position of the first separator in `s`, or its length.
pub fn find_sep_exec(s: &[char]) -> (r: usize)
    ensures
        r == find_sep_from(s@, 0),
{
    let mut i: usize = 0;
    while s.len() > 0 && i < s.len() - 1
        invariant
            i <= s@.len(),
            find_sep_from(s@, 0) == find_sep_from(s@, i as int),
        decreases s@.len() - i,
    {
        if s[i] == ':' && s[i + 1] == ':' {
            return i;
        }
        i = i + 1;
    }
    s.len()
}

/// Position of the last separator in `s`, if any.
pub fn rfind_sep_exec(s: &[char]) -> (r: Option<usize>)
    ensures
        r is None <==> rfind_sep_before(s@, s@.len() as int) < 0,
        r matches Some(k) ==> k == rfind_sep_before(s@, s@.len() as int),
{
    let mut i: usize = s.len();
    while i > 0
        invariant
            i <= s@.len(),
            rfind_sep_before(s@, s@.len() as int) == rfind_sep_before(s@, i as int),
        decreases i,
    {
        if i < s.len() && s[i - 1] == ':' && s[i] == ':' {
            return Some(i - 1);
        }
        i = i - 1;
    }
    None
}

/// The characters of `s` from `start` up to `end`.
pub fn slice_chars(s: &[char], start: usize, end: usize) -> (r: Vec<char>)
    requires
        start <= end <= s@.len(),
    ensures
        r@ == s@.subrange(start as int, end as int),
{
    let mut r: Vec<char> = Vec::new();
    let mut i = start;
    while i < end
        invariant
            start <= i <= end <= s@.len(),
            r@ == s@.subrange(start as int, i as int),
        decreases end - i,
    {
        r.push(s[i]);
        i = i + 1;
        assert(r@ =~= s@.subrange(start as int, i as int));
    }
    r
}

/// The first segment of a path.
pub fn first_segment_exec(s: &[char]) -> (r: Vec<char>)
    ensures
        r@ == first_segment(s@),
{
    let k = find_sep_exec(s);
    proof {
        lemma_find_sep_bounds(s@, 0);
    }
    slice_chars(s, 0, k)
}

/// The last segment of a path.
pub fn last_segment_exec(s: &[char]) -> (r: Vec<char>)
    ensures
        r@ == last_segment(s@),
{
    let n = s.len();
    match rfind_sep_exec(s) {
        None => slice_chars(s, 0, n),
        Some(k) => {
            proof {
                lemma_rfind_sep_bounds(s@, s@.len() as int);
                assert(sep_at(s@, k as int));
            }
            slice_chars(s, k + 2, n)
        },
    }
}

/// Whether the path holds a separator.
pub fn has_sep_exec(s: &[char]) -> (r: bool)
    ensures
        r == has_sep(s@),
{
    let k = find_sep_exec(s);
    proof {
        lemma_find_sep_bounds(s@, 0);
        if k < s@.len() {
            assert(sep_at(s@, k as int));
        } else {
            assert forall|i: int| !#[trigger] sep_at(s@, i) by {
                if 0 <= i < s@.len() {
                    lemma_find_sep_first(s@, 0, i);
                }
            }
        }
    }
    k < s.len()
}

pub proof fn lemma_find_sep_bounds(s: Seq<char>, i: int)
    requires
        0 <= i,
    ensures
        i <= find_sep_from(s, i) <= s.len() || find_sep_from(s, i) == s.len(),
        find_sep_from(s, i) < s.len() ==> sep_at(s, find_sep_from(s, i)),
        0 <= find_sep_from(s, i) <= s.len(),
    decreases s.len() - i,
{
    if i + 1 < s.len() && !sep_at(s, i) {
        lemma_find_sep_bounds(s, i + 1);
    }
}

pub proof fn lemma_find_sep_first(s: Seq<char>, i: int, j: int)
    requires
        0 <= i <= j,
        j < find_sep_from(s, i),
    ensures
        !sep_at(s, j),
    decreases s.len() - i,
{
    if i + 1 < s.len() && !sep_at(s, i) && i < j {
        lemma_find_sep_first(s, i + 1, j);
    }
}

pub proof fn lemma_rfind_sep_bounds(s: Seq<char>, i: int)
    requires
        i <= s.len(),
    ensures
        -1 <= rfind_sep_before(s, i) < i || rfind_sep_before(s, i) == -1,
        rfind_sep_before(s, i) >= 0 ==> sep_at(s, rfind_sep_before(s, i)),
    decreases i,
{
    if i > 0 && !sep_at(s, i - 1) {
        lemma_rfind_sep_bounds(s, i - 1);
    }
}

} // verus!
