//! Package and file names, seen as sequences of characters.

use vstd::prelude::*;

verus! {

/// `name` ends with `suffix`.
pub open spec fn ends_with(name: Seq<char>, suffix: Seq<char>) -> bool {
    suffix.len() <= name.len() && name.skip(name.len() - suffix.len()) == suffix
}

/// `name` starts with `prefix`.
pub open spec fn starts_with(name: Seq<char>, prefix: Seq<char>) -> bool {
    prefix.len() <= name.len() && name.take(prefix.len() as int) == prefix
}

/// `name` without its last `n` characters.
pub open spec fn strip_suffix(name: Seq<char>, n: int) -> Seq<char>
    recommends
        0 <= n <= name.len(),
{
    name.take(name.len() - n)
}

/// The view of an optional text.
pub open spec fn opt_view(text: Option<String>) -> Option<Seq<char>> {
    match text {
        Some(s) => Some(s@),
        None => None,
    }
}

/// The views of a list of texts.
pub open spec fn views(texts: Seq<String>) -> Seq<Seq<char>> {
    texts.map_values(|s: String| s@)
}

/// The characters of `s`, in order.
pub fn chars_of(s: &str) -> (out: Vec<char>)
    ensures
        out@ == s@,
{
    let mut out: Vec<char> = Vec::new();
    for c in it: s.chars()
        invariant
            out@ == it.seq().take(it.index()),
    {
        out.push(c);
    }
    out
}

/// An owned copy of `s`.
pub fn owned(s: &str) -> (out: String)
    ensures
        out@ == s@,
{
    s.to_owned()
}

/// Whether two texts hold the same characters.
pub fn same_text(a: &str, b: &str) -> (out: bool)
    ensures
        out == (a@ == b@),
{
    let x = chars_of(a);
    let y = chars_of(b);
    if x.len() != y.len() {
        return false;
    }
    let mut i: usize = 0;
    while i < x.len()
        invariant
            i <= x.len(),
            x.len() == y.len(),
            x@ == a@,
            y@ == b@,
            forall|j: int| 0 <= j < i ==> x@[j] == y@[j],
        decreases x.len() - i,
    {
        if x[i] != y[i] {
            return false;
        }
        i += 1;
    }
    assert(x@ =~= y@);
    true
}

/// Whether `line` is the single character `key`.
pub fn is_key(line: &str, key: char) -> (out: bool)
    ensures
        out == (line@ == seq![key]),
{
    let x = chars_of(line);
    if x.len() == 1 && x[0] == key {
        assert(x@ =~= seq![key]);
        true
    } else {
        assert(seq![key].len() == 1 && seq![key][0] == key);
        false
    }
}

/// Whether two optional texts agree: both absent, or both present with the
/// same characters.
pub fn same_optional_text(a: &Option<String>, b: &Option<String>) -> (out: bool)
    ensures
        out == (opt_view(*a) == opt_view(*b)),
{
    match (a, b) {
        (Some(x), Some(y)) => same_text(x.as_str(), y.as_str()),
        (None, None) => true,
        _ => false,
    }
}

/// Whether `name` ends with `suffix`.
pub fn has_suffix(name: &str, suffix: &str) -> (out: bool)
    ensures
        out == ends_with(name@, suffix@),
{
    let n = chars_of(name);
    let s = chars_of(suffix);
    if s.len() > n.len() {
        return false;
    }
    let off: usize = n.len() - s.len();
    let mut i: usize = 0;
    while i < s.len()
        invariant
            i <= s.len(),
            off + s.len() == n.len(),
            n@ == name@,
            s@ == suffix@,
            forall|j: int| 0 <= j < i ==> n@[off + j] == s@[j],
        decreases s.len() - i,
    {
        if n[off + i] != s[i] {
            assert(n@.skip(off as int)[i as int] != s@[i as int]);
            return false;
        }
        i += 1;
    }
    assert(n@.skip(off as int) =~= s@);
    true
}

/// Whether `name` is one of `list`.
pub fn contains_name(list: &Vec<String>, name: &str) -> (out: bool)
    ensures
        out == views(list@).contains(name@),
{
    let mut i: usize = 0;
    while i < list.len()
        invariant
            i <= list.len(),
            forall|j: int| 0 <= j < i ==> views(list@)[j] != name@,
        decreases list.len() - i,
    {
        if same_text(list[i].as_str(), name) {
            assert(views(list@)[i as int] == name@);
            return true;
        }
        i += 1;
    }
    false
}

} // verus!
