//! Path strings as sequences of characters, with `/` as the separator.
use vstd::prelude::*;
use vstd::string::StringExecFns;

verus! {

/// `p` joined under `base`: an absolute `p` replaces `base`; otherwise a
/// separator is put between them unless `base` is empty or already ends in one.
pub open spec fn join_path(base: Seq<char>, p: Seq<char>) -> Seq<char> {
    if p.len() > 0 && p[0] == '/' {
        p
    } else if base.len() == 0 || base.last() == '/' {
        base + p
    } else {
        base + seq!['/'] + p
    }
}

/// `p` without its leading separators.
pub open spec fn strip_root(p: Seq<char>) -> Seq<char>
    decreases p.len(),
{
    if p.len() > 0 && p[0] == '/' {
        strip_root(p.drop_first())
    } else {
        p
    }
}

/// `dest` placed under `root`, whether or not `dest` is written as absolute.
pub open spec fn in_root(root: Seq<char>, dest: Seq<char>) -> Seq<char> {
    join_path(root, strip_root(dest))
}

/// Index of the last separator of `p`, or -1 where it has none.
pub open spec fn last_sep(p: Seq<char>) -> int
    decreases p.len(),
{
    if p.len() == 0 {
        -1
    } else if p.last() == '/' {
        p.len() - 1
    } else {
        last_sep(p.drop_last())
    }
}

/// `p` without its trailing separators, except that a path made only of
/// separators keeps one.
pub open spec fn trim_end(p: Seq<char>) -> Seq<char>
    decreases p.len(),
{
    if p.len() > 1 && p.last() == '/' {
        trim_end(p.drop_last())
    } else {
        p
    }
}

/// What follows the last separator of `p`.
pub open spec fn last_part(p: Seq<char>) -> Seq<char> {
    p.subrange(last_sep(p) + 1, p.len() as int)
}

/// The last component of `p`, trailing separators aside.
pub open spec fn base_name(p: Seq<char>) -> Seq<char> {
    last_part(trim_end(p))
}

/// The directory that holds `p`, trailing separators aside: what precedes its
/// last separator, itself without trailing separators.
pub open spec fn parent_of(p: Seq<char>) -> Seq<char> {
    let q = trim_end(p);
    if last_sep(q) < 0 {
        Seq::empty()
    } else if last_sep(q) == 0 {
        seq!['/']
    } else {
        trim_end(q.subrange(0, last_sep(q)))
    }
}

/// The directory next to which `root` lies; `.` where `root` is empty or
/// only separators.
pub open spec fn workspace_of(root: Seq<char>) -> Seq<char> {
    if trim_end(root).len() == 0 || trim_end(root) == seq!['/'] {
        seq!['.']
    } else {
        parent_of(root)
    }
}

/// `p` with a separator at its end.
pub open spec fn with_trailing_sep(p: Seq<char>) -> Seq<char> {
    if p.len() > 0 && p.last() == '/' {
        p
    } else {
        p.push('/')
    }
}

pub proof fn lemma_last_sep_bounds(p: Seq<char>)
    ensures
        -1 <= last_sep(p) < p.len(),
        last_sep(p) >= 0 ==> p[last_sep(p)] == '/',
        forall|j: int| last_sep(p) < j < p.len() ==> p[j] != '/',
    decreases p.len(),
{
    if p.len() > 0 && p.last() != '/' {
        lemma_last_sep_bounds(p.drop_last());
        assert forall|j: int| last_sep(p) < j < p.len() implies p[j] != '/' by {
            if j < p.len() - 1 {
                assert(p[j] == p.drop_last()[j]);
            }
        }
    }
}

/// `p` joined under `base`.
pub fn join(base: &str, p: &str) -> (r: String)
    ensures
        r@ == join_path(base@, p@),
{
    let plen = p.unicode_len();
    let blen = base.unicode_len();
    if plen > 0 && p.get_char(0) == '/' {
        String::from_str(p)
    } else if blen == 0 || base.get_char(blen - 1) == '/' {
        let mut r = String::from_str(base);
        r.append(p);
        r
    } else {
        proof {
            reveal_strlit("/");
        }
        let mut r = String::from_str(base);
        r.append("/");
        r.append(p);
        assert(r@ =~= base@ + seq!['/'] + p@);
        r
    }
}

/// `p` without its leading separators.
pub fn strip_leading_seps(p: &str) -> (r: &str)
    ensures
        r@ == strip_root(p@),
{
    let len = p.unicode_len();
    let mut i: usize = 0;
    assert(p@.subrange(0, len as int) =~= p@);
    while i < len && p.get_char(i) == '/'
        invariant
            i <= len,
            len == p@.len(),
            strip_root(p@.subrange(i as int, len as int)) == strip_root(p@),
        decreases len - i,
    {
        assert(p@.subrange(i as int, len as int).drop_first() =~= p@.subrange(
            i + 1,
            len as int,
        ));
        i = i + 1;
    }
    p.substring_char(i, len)
}

/// `dest` placed under `root`.
pub fn dest_in_root(root: &str, dest: &str) -> (r: String)
    ensures
        r@ == in_root(root@, dest@),
{
    join(root, strip_leading_seps(dest))
}

/// Index of the last separator of `p`, if any.
pub fn last_sep_index(p: &str) -> (r: Option<usize>)
    ensures
        match r {
            Some(i) => last_sep(p@) == i as int,
            None => last_sep(p@) == -1,
        },
{
    let len = p.unicode_len();
    let mut i: usize = len;
    assert(p@.subrange(0, len as int) =~= p@);
    while i > 0 && p.get_char(i - 1) != '/'
        invariant
            i <= len,
            len == p@.len(),
            last_sep(p@.subrange(0, i as int)) == last_sep(p@),
        decreases i,
    {
        assert(p@.subrange(0, i as int).drop_last() =~= p@.subrange(0, i - 1));
        i = i - 1;
    }
    if i == 0 {
        None
    } else {
        Some(i - 1)
    }
}

/// `p` without its trailing separators, except that a path made only of
/// separators keeps one.
pub fn trim_trailing_seps(p: &str) -> (r: &str)
    ensures
        r@ == trim_end(p@),
{
    let len = p.unicode_len();
    let mut i: usize = len;
    assert(p@.subrange(0, len as int) =~= p@);
    while i > 1 && p.get_char(i - 1) == '/'
        invariant
            i <= len,
            len == p@.len(),
            trim_end(p@.subrange(0, i as int)) == trim_end(p@),
        decreases i,
    {
        assert(p@.subrange(0, i as int).drop_last() =~= p@.subrange(0, i - 1));
        i = i - 1;
    }
    p.substring_char(0, i)
}

/// The last component of `p`, trailing separators aside.
pub fn file_name(p: &str) -> (r: &str)
    ensures
        r@ == base_name(p@),
{
    let q = trim_trailing_seps(p);
    let len = q.unicode_len();
    proof {
        lemma_last_sep_bounds(q@);
    }
    match last_sep_index(q) {
        Some(i) => q.substring_char(i + 1, len),
        None => q.substring_char(0, len),
    }
}

/// The directory that holds `p`, trailing separators aside.
pub fn parent(p: &str) -> (r: String)
    ensures
        r@ == parent_of(p@),
{
    let q = trim_trailing_seps(p);
    proof {
        lemma_last_sep_bounds(q@);
    }
    match last_sep_index(q) {
        None => String::new(),
        Some(i) => {
            if i == 0 {
                proof {
                    reveal_strlit("/");
                }
                String::from_str("/")
            } else {
                String::from_str(trim_trailing_seps(q.substring_char(0, i)))
            }
        },
    }
}

/// The directory next to which `root` lies.
pub fn workspace_dir(root: &str) -> (r: String)
    ensures
        r@ == workspace_of(root@),
{
    proof {
        reveal_strlit("/");
        reveal_strlit(".");
    }
    let q = trim_trailing_seps(root);
    let len = q.unicode_len();
    if len == 0 || (len == 1 && q.get_char(0) == '/') {
        assert(len == 1 ==> q@ =~= seq!['/']);
        String::from_str(".")
    } else {
        assert(q@ != seq!['/']);
        parent(root)
    }
}

/// `p` with a separator at its end.
pub fn ensure_trailing_sep(p: &str) -> (r: String)
    ensures
        r@ == with_trailing_sep(p@),
{
    let len = p.unicode_len();
    let mut r = String::from_str(p);
    if len == 0 || p.get_char(len - 1) != '/' {
        proof {
            reveal_strlit("/");
        }
        r.append("/");
        assert(r@ =~= p@.push('/'));
    }
    r
}

pub proof fn lemma_last_sep_append(x: Seq<char>, b: Seq<char>)
    requires
        forall|j: int| 0 <= j < b.len() ==> b[j] != '/',
    ensures
        last_sep(x + b) == last_sep(x),
    decreases b.len(),
{
    if b.len() == 0 {
        assert(x + b =~= x);
    } else {
        assert((x + b).drop_last() =~= x + b.drop_last());
        lemma_last_sep_append(x, b.drop_last());
    }
}

/// A non-empty last component put under a directory is the last component of
/// the result.
pub proof fn lemma_base_name_join(dir: Seq<char>, p: Seq<char>)
    requires
        base_name(p).len() > 0,
    ensures
        base_name(join_path(dir, base_name(p))) == base_name(p),
{
    let q = trim_end(p);
    let b = base_name(p);
    lemma_last_sep_bounds(q);
    assert forall|j: int| 0 <= j < b.len() implies b[j] != '/' by {
        assert(b[j] == q[last_sep(q) + 1 + j]);
    }
    let joined = join_path(dir, b);
    assert(joined.last() == b.last());
    assert(trim_end(joined) == joined);
    if dir.len() == 0 || dir.last() == '/' {
        lemma_last_sep_append(dir, b);
        if dir.len() > 0 {
            assert(last_sep(dir) == dir.len() - 1);
        }
        assert((dir + b).subrange(last_sep(dir) + 1, (dir + b).len() as int) =~= b);
    } else {
        let x = dir + seq!['/'];
        assert(x.last() == '/');
        assert(last_sep(x) == x.len() - 1);
        lemma_last_sep_append(x, b);
        assert(dir + seq!['/'] + b == x + b);
        assert((x + b).subrange(x.len() as int, (x + b).len() as int) =~= b);
    }
}

} // verus!
