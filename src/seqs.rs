//! Views of string lists and their concatenation.
use vstd::prelude::*;

verus! {

/// The parts of `s` put end to end, in order.
pub open spec fn concat_all<A>(s: Seq<Seq<A>>) -> Seq<A>
    decreases s.len(),
{
    if s.len() == 0 {
        Seq::empty()
    } else {
        concat_all(s.drop_last()) + s.last()
    }
}

/// The character sequences of a list of strings.
pub open spec fn strs(v: Seq<String>) -> Seq<Seq<char>> {
    v.map_values(|s: String| s@)
}

/// The character sequences of a list of string pairs.
pub open spec fn pairs(v: Seq<(String, String)>) -> Seq<(Seq<char>, Seq<char>)> {
    v.map_values(|p: (String, String)| (p.0@, p.1@))
}

/// The elements of an optional list; none where it is absent.
pub open spec fn opt_seq<T>(o: Option<Vec<T>>) -> Seq<T> {
    match o {
        Some(v) => v@,
        None => Seq::empty(),
    }
}

pub proof fn lemma_concat_all_prefix<A>(s: Seq<Seq<A>>, i: int)
    requires
        0 <= i < s.len(),
    ensures
        concat_all(s.subrange(0, i + 1)) == concat_all(s.subrange(0, i)) + s[i],
{
    assert(s.subrange(0, i + 1).drop_last() =~= s.subrange(0, i));
}

pub proof fn lemma_strs_push(v: Seq<String>, x: String)
    ensures
        strs(v.push(x)) == strs(v).push(x@),
{
    assert(strs(v.push(x)) =~= strs(v).push(x@));
}

pub proof fn lemma_pairs_push(v: Seq<(String, String)>, x: (String, String))
    ensures
        pairs(v.push(x)) == pairs(v).push((x.0@, x.1@)),
{
    assert(pairs(v.push(x)) =~= pairs(v).push((x.0@, x.1@)));
}

/// Moves the strings of `src` to the end of `dst`.
pub fn append_strs(dst: &mut Vec<String>, src: Vec<String>)
    ensures
        final(dst)@ == old(dst)@ + src@,
        strs(final(dst)@) == strs(old(dst)@) + strs(src@),
{
    let ghost moved = src@;
    let mut src = src;
    dst.append(&mut src);
    assert(strs(dst@) =~= strs(old(dst)@) + strs(moved));
}

/// Moves the pairs of `src` to the end of `dst`.
pub fn append_pairs(dst: &mut Vec<(String, String)>, src: Vec<(String, String)>)
    ensures
        final(dst)@ == old(dst)@ + src@,
        pairs(final(dst)@) == pairs(old(dst)@) + pairs(src@),
{
    let ghost moved = src@;
    let mut src = src;
    dst.append(&mut src);
    assert(pairs(dst@) =~= pairs(old(dst)@) + pairs(moved));
}

} // verus!
