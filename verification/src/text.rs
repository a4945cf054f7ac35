//! Small helpers for strings and lists of strings.

use vstd::prelude::*;
use vstd::string::StrSliceExecFns;
use vstd::string::StringExecFns;

verus! {

/// The character sequence of an optional string.
pub open spec fn opt_text(s: Option<String>) -> Option<Seq<char>> {
    match s {
        Some(s) => Some(s@),
        None => None,
    }
}

/// The character sequences of a list of strings, one for one.
pub open spec fn texts(v: Seq<String>) -> Seq<Seq<char>> {
    Seq::new(v.len(), |i: int| v[i]@)
}

/// Whether `s` ends with the character `c`.
pub open spec fn ends_with(s: Seq<char>, c: char) -> bool {
    s.len() > 0 && s.last() == c
}

/// Whether `s` ends with the character `c`.
pub fn text_ends_with(s: &String, c: char) -> (res: bool)
    ensures
        res == ends_with(s@, c),
{
    let n = s.as_str().unicode_len();
    n > 0 && s.as_str().get_char(n - 1) == c
}

/// Whether two strings read the same.
pub fn same_text(a: &String, b: &String) -> (res: bool)
    ensures
        res == (a@ == b@),
{
    *a == *b
}

/// Whether `s` reads `literal`.
pub fn text_is(s: &String, literal: &str) -> (res: bool)
    ensures
        res == (s@ == literal@),
{
    let other = String::from_str(literal);
    *s == other
}

/// A copy of an optional string.
pub fn clone_opt_text(s: &Option<String>) -> (res: Option<String>)
    ensures
        opt_text(res) == opt_text(*s),
{
    match s {
        Some(t) => Some(t.clone()),
        None => None,
    }
}

/// A copy of each string of `v`, in order.
pub fn clone_texts(v: &Vec<String>) -> (res: Vec<String>)
    ensures
        texts(res@) == texts(v@),
{
    let mut res: Vec<String> = Vec::new();
    let mut i: usize = 0;
    while i < v.len()
        invariant
            i <= v.len(),
            res.len() == i,
            forall|j: int| 0 <= j < i ==> res[j]@ == v[j]@,
        decreases v.len() - i,
    {
        res.push(v[i].clone());
        i += 1;
    }
    assert(texts(res@) =~= texts(v@));
    res
}

/// Appends copies of the strings of `more` to `v`.
pub fn extend_texts(v: &mut Vec<String>, more: &Vec<String>)
    ensures
        texts(final(v)@) == texts(old(v)@) + texts(more@),
{
    let mut i: usize = 0;
    while i < more.len()
        invariant
            i <= more.len(),
            v.len() == old(v).len() + i,
            forall|j: int| 0 <= j < old(v).len() ==> v[j]@ == old(v)[j]@,
            forall|j: int| 0 <= j < i ==> v[old(v).len() + j]@ == more[j]@,
        decreases more.len() - i,
    {
        v.push(more[i].clone());
        i += 1;
    }
    assert(texts(v@) =~= texts(old(v)@) + texts(more@));
}

/// Whether one of the strings of `v` reads as `s` does.
pub fn contains_text(v: &Vec<String>, s: &String) -> (res: bool)
    ensures
        res == texts(v@).contains(s@),
{
    let mut i: usize = 0;
    while i < v.len()
        invariant
            i <= v.len(),
            forall|j: int| 0 <= j < i ==> v[j]@ != s@,
        decreases v.len() - i,
    {
        if same_text(&v[i], s) {
            assert(texts(v@)[i as int] == s@);
            return true;
        }
        i += 1;
    }
    false
}

/// A new string that holds `a` followed by `b`.
pub fn concat_text(a: &str, b: &str) -> (res: String)
    ensures
        res@ == a@ + b@,
{
    let mut res = String::from_str(a);
    res.append(b);
    res
}


/// Filtering one more item: what `filter` gives on the first `i + 1` items
/// in terms of what it gives on the first `i`.
pub proof fn lemma_filter_step<A>(s: Seq<A>, pred: spec_fn(A) -> bool, i: int)
    requires
        0 <= i < s.len(),
    ensures
        s.take(i + 1).filter(pred) == if pred(s[i]) {
            s.take(i).filter(pred).push(s[i])
        } else {
            s.take(i).filter(pred)
        },
{
    reveal(Seq::filter);
    assert(s.take(i + 1).drop_last() =~= s.take(i));
}

/// Filtering nothing gives nothing.
pub proof fn lemma_filter_none<A>(s: Seq<A>, pred: spec_fn(A) -> bool)
    ensures
        s.take(0).filter(pred) == Seq::<A>::empty(),
{
    reveal(Seq::filter);
    assert(s.take(0) =~= Seq::<A>::empty());
}

/// The first `n` texts of `parts` with `sep` between each two.
pub open spec fn joined(parts: Seq<Seq<char>>, sep: Seq<char>, n: int) -> Seq<char>
    decreases n,
{
    if n <= 0 {
        Seq::empty()
    } else if n == 1 {
        parts[0]
    } else {
        joined(parts, sep, n - 1) + sep + parts[n - 1]
    }
}

/// All of `parts` with `sep` between each two.
pub fn join_texts(parts: &Vec<String>, sep: &str) -> (res: String)
    ensures
        res@ == joined(texts(parts@), sep@, parts.len() as int),
{
    let mut res = String::new();
    let mut i: usize = 0;
    while i < parts.len()
        invariant
            i <= parts.len(),
            res@ == joined(texts(parts@), sep@, i as int),
        decreases parts.len() - i,
    {
        if i > 0 {
            res.append(sep);
        }
        res.append(parts[i].as_str());
        assert(texts(parts@)[i as int] == parts[i as int]@);
        assert(Seq::<char>::empty() + parts[i as int]@ =~= parts[i as int]@);
        i += 1;
    }
    res
}

} // verus!
