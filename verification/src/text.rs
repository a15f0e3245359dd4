//! Character-level string helpers with their specifications.
use vstd::prelude::*;

use crate::paths::strings_view;

verus! {

/// The characters of a string slice, in order.
pub fn chars_of(s: &str) -> (v: Vec<char>)
    ensures
        v@ == s@,
{
    let mut v: Vec<char> = Vec::new();
    for c in it: s.chars()
        invariant
            v@ == it.seq().take(it.index() as int),
    {
        v.push(c);
    }
    v
}

/// Whether two string slices hold the same characters.
pub fn str_eq(a: &str, b: &str) -> (equal: bool)
    ensures
        equal == (a@ == b@),
{
    let a_owned = a.to_owned();
    let b_owned = b.to_owned();
    a_owned == b_owned
}

/// `std::string::String::push`: appends one character to the end of the
/// string, as its documentation says.
#[verifier::external_body]
fn push_char(s: &mut String, c: char)
    ensures
        final(s)@ == old(s)@.push(c),
{
    s.push(c);
}

/// A string holding the given characters.
pub fn string_from_chars(chars: &[char]) -> (s: String)
    ensures
        s@ == chars@,
{
    let mut s = String::new();
    let mut i: usize = 0;
    while i < chars.len()
        invariant
            i <= chars@.len(),
            s@ == chars@.take(i as int),
        decreases chars@.len() - i,
    {
        push_char(&mut s, chars[i]);
        assert(chars@.take(i + 1) =~= chars@.take(i as int).push(chars@[i as int]));
        i += 1;
    }
    assert(chars@.take(chars@.len() as int) =~= chars@);
    s
}

/// The characters of `s` with every `from` turned into `to`.
pub open spec fn replaced(s: Seq<char>, from: char, to: char) -> Seq<char> {
    s.map_values(|c: char| if c == from { to } else { c })
}

/// `s` with every `from` character replaced by `to`.
pub fn replace_char(s: &str, from: char, to: char) -> (r: String)
    ensures
        r@ == replaced(s@, from, to),
{
    let mut chars = chars_of(s);
    let ghost original = chars@;
    let mut i: usize = 0;
    while i < chars.len()
        invariant
            original == s@,
            chars@.len() == original.len(),
            i <= chars@.len(),
            forall|t: int| 0 <= t < i ==> chars@[t] == (if original[t] == from { to } else { original[t] }),
            forall|t: int| i <= t < chars@.len() ==> chars@[t] == original[t],
        decreases chars@.len() - i,
    {
        if chars[i] == from {
            chars.set(i, to);
        }
        i += 1;
    }
    assert(chars@ =~= replaced(s@, from, to));
    string_from_chars(chars.as_slice())
}

/// Whether `s` begins with `prefix`.
pub open spec fn has_prefix(s: Seq<char>, prefix: Seq<char>) -> bool {
    prefix.len() <= s.len() && s.take(prefix.len() as int) == prefix
}

/// Whether `s` ends with `suffix`.
pub open spec fn has_suffix(s: Seq<char>, suffix: Seq<char>) -> bool {
    suffix.len() <= s.len() && s.skip(s.len() - suffix.len()) == suffix
}

/// Whether the characters of `s` from `start` on begin with `prefix`.
fn chars_match_at(s: &[char], start: usize, prefix: &[char]) -> (r: bool)
    requires
        start <= s@.len(),
    ensures
        r == has_prefix(s@.skip(start as int), prefix@),
{
    if prefix.len() > s.len() - start {
        return false;
    }
    let mut i: usize = 0;
    while i < prefix.len()
        invariant
            start + prefix@.len() <= s.len(),
            s.len() == s@.len(),
            i <= prefix@.len(),
            forall|t: int| 0 <= t < i ==> s@[start + t] == prefix@[t],
        decreases prefix@.len() - i,
    {
        if s[start + i] != prefix[i] {
            assert(s@.skip(start as int).take(prefix@.len() as int)[i as int] != prefix@[i as int]);
            return false;
        }
        i += 1;
    }
    assert(s@.skip(start as int).take(prefix@.len() as int) =~= prefix@);
    true
}

/// Whether `s` begins with `prefix`.
pub fn starts_with(s: &str, prefix: &str) -> (r: bool)
    ensures
        r == has_prefix(s@, prefix@),
{
    let sc = chars_of(s);
    let pc = chars_of(prefix);
    assert(sc@.skip(0) =~= sc@);
    chars_match_at(sc.as_slice(), 0, pc.as_slice())
}

/// Whether `s` ends with `suffix`.
pub fn ends_with(s: &str, suffix: &str) -> (r: bool)
    ensures
        r == has_suffix(s@, suffix@),
{
    let sc = chars_of(s);
    let pc = chars_of(suffix);
    if pc.len() > sc.len() {
        return false;
    }
    let r = chars_match_at(sc.as_slice(), sc.len() - pc.len(), pc.as_slice());
    assert(sc@.skip(sc@.len() - pc@.len()).take(pc@.len() as int) =~= sc@.skip(
        sc@.len() - pc@.len(),
    ));
    r
}

/// Whether two character slices are equal.
pub fn chars_eq(a: &[char], b: &[char]) -> (r: bool)
    ensures
        r == (a@ == b@),
{
    if a.len() != b.len() {
        return false;
    }
    let mut i: usize = 0;
    while i < a.len()
        invariant
            a@.len() == b@.len(),
            i <= a@.len(),
            forall|t: int| 0 <= t < i ==> a@[t] == b@[t],
        decreases a@.len() - i,
    {
        if a[i] != b[i] {
            return false;
        }
        i += 1;
    }
    assert(a@ =~= b@);
    true
}

/// The characters of `s` before its first `'/'`, or all of them where it
/// has none.
pub open spec fn first_segment(s: Seq<char>) -> Seq<char>
    decreases s.len(),
{
    if s.len() == 0 || s[0] == '/' {
        Seq::empty()
    } else {
        seq![s[0]] + first_segment(s.skip(1))
    }
}

proof fn lemma_first_segment(s: Seq<char>, i: int)
    requires
        0 <= i <= s.len(),
        forall|t: int| 0 <= t < i ==> s[t] != '/',
        i == s.len() || s[i] == '/',
    ensures
        first_segment(s) == s.take(i),
    decreases s.len(),
{
    if i > 0 {
        lemma_first_segment(s.skip(1), i - 1);
        assert(seq![s[0]] + s.skip(1).take(i - 1) =~= s.take(i));
    } else {
        assert(s.take(0) =~= Seq::<char>::empty());
    }
}

/// The index of the first `'/'` of `s`, or its length where it has none.
pub fn first_slash(s: &[char]) -> (i: usize)
    ensures
        i <= s@.len(),
        first_segment(s@) == s@.take(i as int),
        i < s@.len() ==> s@[i as int] == '/',
{
    let mut i: usize = 0;
    while i < s.len() && s[i] != '/'
        invariant
            i <= s@.len(),
            forall|t: int| 0 <= t < i ==> s@[t] != '/',
        decreases s@.len() - i,
    {
        i += 1;
    }
    proof {
        lemma_first_segment(s@, i as int);
    }
    i
}

/// The parts written one after another with `separator` between each two.
pub open spec fn joined(parts: Seq<Seq<char>>, separator: Seq<char>) -> Seq<char>
    decreases parts.len(),
{
    if parts.len() == 0 {
        Seq::empty()
    } else if parts.len() == 1 {
        parts[0]
    } else {
        joined(parts.drop_last(), separator) + separator + parts.last()
    }
}

/// The strings written one after another with `separator` between each two.
pub fn join_strings(parts: &[String], separator: &str) -> (text: String)
    ensures
        text@ == joined(strings_view(parts@), separator@),
{
    let ghost views = strings_view(parts@);
    let mut text = String::new();
    let mut i: usize = 0;
    while i < parts.len()
        invariant
            views == strings_view(parts@),
            i <= parts@.len(),
            text@ == joined(views.take(i as int), separator@),
        decreases parts@.len() - i,
    {
        assert(views.take(i + 1).drop_last() =~= views.take(i as int));
        if i > 0 {
            text.append(separator);
        }
        text.append(parts[i].as_str());
        assert(views.take(i + 1).last() == parts@[i as int]@);
        if i == 0 {
            assert(text@ =~= joined(views.take(1), separator@));
        }
        i += 1;
    }
    assert(views.take(parts@.len() as int) =~= views);
    text
}

} // verus!
