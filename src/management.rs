//! The operations that a manifest asks for, gathered per source, per target
//! and per manifest.
use vstd::prelude::*;
use vstd::string::StringExecFns;

use crate::paths::{dest_in_root, in_root, parent, parent_of};
use crate::seqs::{append_pairs, append_strs, lemma_pairs_push, lemma_strs_push, pairs, strs};

verus! {

/// All operations of one source.
pub struct SourceManagement {
    pub dirs_to_copy: Vec<(String, String)>,
    pub files_to_copy: Vec<(String, String)>,
    pub files_autodep: Vec<String>,
    pub files_to_check: Vec<(String, String)>,
}

/// All operations of one target.
pub struct TargetManagement {
    pub dirs_to_make: Vec<String>,
    pub links_to_create: Vec<(String, String)>,
    pub dirs_to_copy: Vec<(String, String)>,
    pub files_to_copy: Vec<(String, String)>,
    pub files_autodep: Vec<String>,
    pub files_to_check: Vec<(String, String)>,
}

impl TargetManagement {
    /// Appends the copies, candidates and checks of one source.
    pub fn add_source_management(&mut self, source_management: SourceManagement)
        ensures
            final(self).dirs_to_make@ == old(self).dirs_to_make@,
            final(self).links_to_create@ == old(self).links_to_create@,
            final(self).dirs_to_copy@ == old(self).dirs_to_copy@ + source_management.dirs_to_copy@,
            final(self).files_to_copy@ == old(self).files_to_copy@
                + source_management.files_to_copy@,
            final(self).files_autodep@ == old(self).files_autodep@
                + source_management.files_autodep@,
            final(self).files_to_check@ == old(self).files_to_check@
                + source_management.files_to_check@,
            pairs(final(self).dirs_to_copy@) == pairs(old(self).dirs_to_copy@) + pairs(
                source_management.dirs_to_copy@,
            ),
            pairs(final(self).files_to_copy@) == pairs(old(self).files_to_copy@) + pairs(
                source_management.files_to_copy@,
            ),
            strs(final(self).files_autodep@) == strs(old(self).files_autodep@) + strs(
                source_management.files_autodep@,
            ),
            pairs(final(self).files_to_check@) == pairs(old(self).files_to_check@) + pairs(
                source_management.files_to_check@,
            ),
    {
        let SourceManagement { dirs_to_copy, files_to_copy, files_autodep, files_to_check } =
            source_management;
        append_pairs(&mut self.dirs_to_copy, dirs_to_copy);
        append_pairs(&mut self.files_to_copy, files_to_copy);
        append_strs(&mut self.files_autodep, files_autodep);
        append_pairs(&mut self.files_to_check, files_to_check);
    }
}

/// Each of `out` is what `f` gave for the string at the same place of `raw`.
pub open spec fn resolved_strs<F: Fn(String) -> String>(
    f: F,
    raw: Seq<String>,
    out: Seq<String>,
) -> bool {
    &&& raw.len() == out.len()
    &&& forall|i: int| 0 <= i < raw.len() ==> call_ensures(f, (raw[i],), #[trigger] out[i])
}

/// Each of `out` is what `f` gave for the pair at the same place of `raw`,
/// one component at a time.
pub open spec fn resolved_pairs<F: Fn(String) -> String>(
    f: F,
    raw: Seq<(String, String)>,
    out: Seq<(String, String)>,
) -> bool {
    &&& raw.len() == out.len()
    &&& forall|i: int|
        0 <= i < raw.len() ==> call_ensures(f, (raw[i].0,), (#[trigger] out[i]).0)
            && call_ensures(f, (raw[i].1,), out[i].1)
}

/// `out` is what `f` gives for some string whose characters are `raw`.
pub open spec fn resolves_to<F: Fn(String) -> String>(f: F, raw: Seq<char>, out: String) -> bool {
    exists|s: String| s@ == raw && #[trigger] call_ensures(f, (s,), out)
}

/// `out` is `raw` with each path passed through `f`.
pub open spec fn resolved_views<F: Fn(String) -> String>(
    f: F,
    raw: Seq<Seq<char>>,
    out: Seq<String>,
) -> bool {
    &&& raw.len() == out.len()
    &&& forall|i: int| 0 <= i < raw.len() ==> resolves_to(f, raw[i], #[trigger] out[i])
}

/// `out` is `raw` with both paths of each pair passed through `f`.
pub open spec fn resolved_pair_views<F: Fn(String) -> String>(
    f: F,
    raw: Seq<(Seq<char>, Seq<char>)>,
    out: Seq<(String, String)>,
) -> bool {
    &&& raw.len() == out.len()
    &&& forall|i: int|
        0 <= i < raw.len() ==> resolves_to(f, raw[i].0, (#[trigger] out[i]).0) && resolves_to(
            f,
            raw[i].1,
            out[i].1,
        )
}

pub proof fn lemma_resolved_strs_views<F: Fn(String) -> String>(
    f: F,
    raw: Seq<String>,
    out: Seq<String>,
)
    requires
        resolved_strs(f, raw, out),
    ensures
        resolved_views(f, strs(raw), out),
{
    assert forall|i: int| 0 <= i < raw.len() implies resolves_to(f, strs(raw)[i], #[trigger] out[i]) by {
        assert(call_ensures(f, (raw[i],), out[i]));
    }
}

pub proof fn lemma_resolved_pairs_views<F: Fn(String) -> String>(
    f: F,
    raw: Seq<(String, String)>,
    out: Seq<(String, String)>,
)
    requires
        resolved_pairs(f, raw, out),
    ensures
        resolved_pair_views(f, pairs(raw), out),
{
    assert forall|i: int| 0 <= i < raw.len() implies resolves_to(
        f,
        pairs(raw)[i].0,
        (#[trigger] out[i]).0,
    ) && resolves_to(f, pairs(raw)[i].1, out[i].1) by {
        assert(call_ensures(f, (raw[i].0,), out[i].0));
        assert(call_ensures(f, (raw[i].1,), out[i].1));
    }
}

pub proof fn lemma_resolved_views_concat<F: Fn(String) -> String>(
    f: F,
    a: Seq<Seq<char>>,
    x: Seq<String>,
    b: Seq<Seq<char>>,
    y: Seq<String>,
)
    requires
        resolved_views(f, a, x),
        resolved_views(f, b, y),
    ensures
        resolved_views(f, a + b, x + y),
{
    assert forall|i: int| 0 <= i < (a + b).len() implies resolves_to(
        f,
        (a + b)[i],
        #[trigger] (x + y)[i],
    ) by {
        if i < a.len() {
            assert(resolves_to(f, a[i], x[i]));
        } else {
            assert(resolves_to(f, b[i - a.len()], y[i - a.len()]));
        }
    }
}

pub proof fn lemma_resolved_pair_views_concat<F: Fn(String) -> String>(
    f: F,
    a: Seq<(Seq<char>, Seq<char>)>,
    x: Seq<(String, String)>,
    b: Seq<(Seq<char>, Seq<char>)>,
    y: Seq<(String, String)>,
)
    requires
        resolved_pair_views(f, a, x),
        resolved_pair_views(f, b, y),
    ensures
        resolved_pair_views(f, a + b, x + y),
{
    assert forall|i: int| 0 <= i < (a + b).len() implies resolves_to(
        f,
        (a + b)[i].0,
        (#[trigger] (x + y)[i]).0,
    ) && resolves_to(f, (a + b)[i].1, (x + y)[i].1) by {
        if i < a.len() {
            assert(resolves_to(f, a[i].0, x[i].0));
        } else {
            assert(resolves_to(f, b[i - a.len()].0, y[i - a.len()].0));
        }
    }
}

/// Each string of `v` passed through `resolve`.
pub fn resolve_strs<F: Fn(String) -> String>(v: &Vec<String>, resolve: &F) -> (r: Vec<String>)
    requires
        forall|s: String| call_requires(*resolve, (s,)),
    ensures
        resolved_strs(*resolve, v@, r@),
{
    let mut r: Vec<String> = Vec::new();
    let mut i: usize = 0;
    while i < v.len()
        invariant
            i <= v.len(),
            forall|s: String| call_requires(*resolve, (s,)),
            r.len() == i,
            forall|j: int| 0 <= j < i ==> call_ensures(*resolve, (v@[j],), #[trigger] r@[j]),
        decreases v.len() - i,
    {
        let x = resolve(v[i].clone());
        r.push(x);
        i = i + 1;
    }
    r
}

/// Both strings of each pair of `v` passed through `resolve`.
pub fn resolve_pairs<F: Fn(String) -> String>(v: &Vec<(String, String)>, resolve: &F) -> (r: Vec<
    (String, String),
>)
    requires
        forall|s: String| call_requires(*resolve, (s,)),
    ensures
        resolved_pairs(*resolve, v@, r@),
{
    let mut r: Vec<(String, String)> = Vec::new();
    let mut i: usize = 0;
    while i < v.len()
        invariant
            i <= v.len(),
            forall|s: String| call_requires(*resolve, (s,)),
            r.len() == i,
            forall|j: int|
                0 <= j < i ==> call_ensures(*resolve, (v@[j].0,), (#[trigger] r@[j]).0)
                    && call_ensures(*resolve, (v@[j].1,), r@[j].1),
        decreases v.len() - i,
    {
        let a = resolve(v[i].0.clone());
        let b = resolve(v[i].1.clone());
        r.push((a, b));
        i = i + 1;
    }
    r
}

impl TargetManagement {
    /// Passes every path of the target's operations and every candidate for
    /// dependency capture through `resolve`; the hash checks stay as they are.
    pub fn resolve_environmental_variables<F: Fn(String) -> String>(&mut self, resolve: &F)
        requires
            forall|s: String| call_requires(*resolve, (s,)),
        ensures
            resolved_strs(*resolve, old(self).dirs_to_make@, final(self).dirs_to_make@),
            resolved_pairs(*resolve, old(self).links_to_create@, final(self).links_to_create@),
            resolved_pairs(*resolve, old(self).dirs_to_copy@, final(self).dirs_to_copy@),
            resolved_pairs(*resolve, old(self).files_to_copy@, final(self).files_to_copy@),
            resolved_strs(*resolve, old(self).files_autodep@, final(self).files_autodep@),
            final(self).files_to_check@ == old(self).files_to_check@,
    {
        self.dirs_to_make = resolve_strs(&self.dirs_to_make, resolve);
        self.links_to_create = resolve_pairs(&self.links_to_create, resolve);
        self.dirs_to_copy = resolve_pairs(&self.dirs_to_copy, resolve);
        self.files_to_copy = resolve_pairs(&self.files_to_copy, resolve);
        self.files_autodep = resolve_strs(&self.files_autodep, resolve);
    }
}

/// All operations of one manifest.
pub struct BomManagement {
    pub dirs_to_make: Vec<String>,
    pub links_to_create: Vec<(String, String)>,
    pub dirs_to_copy: Vec<(String, String)>,
    pub files_to_copy: Vec<(String, String)>,
    pub shared_objects_to_copy: Vec<(String, String)>,
    pub files_autodep: Vec<String>,
    pub files_to_check: Vec<(String, String)>,
}

/// The directory made for a dependency, whose destination is `dest` under `root`.
pub open spec fn dep_dir(root: Seq<char>, dep: (Seq<char>, Seq<char>)) -> Seq<char> {
    parent_of(in_root(root, dep.1))
}

/// The copy of a dependency to `dest` under `root`.
pub open spec fn dep_copy(root: Seq<char>, dep: (Seq<char>, Seq<char>)) -> (Seq<char>, Seq<char>) {
    (dep.0, in_root(root, dep.1))
}

impl BomManagement {
    /// A management that only creates `root_dir`.
    pub fn new(root_dir: &str) -> (r: BomManagement)
        ensures
            strs(r.dirs_to_make@) == seq![root_dir@],
            r.dirs_to_make@.len() == 1,
            r.dirs_to_make@[0]@ == root_dir@,
            r.links_to_create@.len() == 0,
            r.dirs_to_copy@.len() == 0,
            r.files_to_copy@.len() == 0,
            r.shared_objects_to_copy@.len() == 0,
            r.files_autodep@.len() == 0,
            r.files_to_check@.len() == 0,
    {
        let mut dirs_to_make: Vec<String> = Vec::new();
        dirs_to_make.push(String::from_str(root_dir));
        assert(strs(dirs_to_make@) =~= seq![root_dir@]);
        BomManagement {
            dirs_to_make,
            links_to_create: Vec::new(),
            dirs_to_copy: Vec::new(),
            files_to_copy: Vec::new(),
            shared_objects_to_copy: Vec::new(),
            files_autodep: Vec::new(),
            files_to_check: Vec::new(),
        }
    }

    /// Appends the operations of one target, with its paths passed through `resolve`.
    pub fn add_target_management<F: Fn(String) -> String>(
        &mut self,
        target_management: TargetManagement,
        resolve: &F,
    )
        requires
            forall|s: String| call_requires(*resolve, (s,)),
        ensures
            final(self).dirs_to_make@.len() == old(self).dirs_to_make@.len()
                + target_management.dirs_to_make@.len(),
            final(self).links_to_create@.len() == old(self).links_to_create@.len()
                + target_management.links_to_create@.len(),
            final(self).dirs_to_copy@.len() == old(self).dirs_to_copy@.len()
                + target_management.dirs_to_copy@.len(),
            final(self).files_to_copy@.len() == old(self).files_to_copy@.len()
                + target_management.files_to_copy@.len(),
            final(self).files_autodep@.len() == old(self).files_autodep@.len()
                + target_management.files_autodep@.len(),
            final(self).dirs_to_make@.subrange(0, old(self).dirs_to_make@.len() as int)
                == old(self).dirs_to_make@,
            resolved_views(
                *resolve,
                strs(target_management.dirs_to_make@),
                final(self).dirs_to_make@.subrange(
                    old(self).dirs_to_make@.len() as int,
                    final(self).dirs_to_make@.len() as int,
                ),
            ),
            final(self).links_to_create@.subrange(0, old(self).links_to_create@.len() as int)
                == old(self).links_to_create@,
            resolved_pair_views(
                *resolve,
                pairs(target_management.links_to_create@),
                final(self).links_to_create@.subrange(
                    old(self).links_to_create@.len() as int,
                    final(self).links_to_create@.len() as int,
                ),
            ),
            final(self).dirs_to_copy@.subrange(0, old(self).dirs_to_copy@.len() as int)
                == old(self).dirs_to_copy@,
            resolved_pair_views(
                *resolve,
                pairs(target_management.dirs_to_copy@),
                final(self).dirs_to_copy@.subrange(
                    old(self).dirs_to_copy@.len() as int,
                    final(self).dirs_to_copy@.len() as int,
                ),
            ),
            final(self).files_to_copy@.subrange(0, old(self).files_to_copy@.len() as int)
                == old(self).files_to_copy@,
            resolved_pair_views(
                *resolve,
                pairs(target_management.files_to_copy@),
                final(self).files_to_copy@.subrange(
                    old(self).files_to_copy@.len() as int,
                    final(self).files_to_copy@.len() as int,
                ),
            ),
            final(self).files_autodep@.subrange(0, old(self).files_autodep@.len() as int)
                == old(self).files_autodep@,
            resolved_views(
                *resolve,
                strs(target_management.files_autodep@),
                final(self).files_autodep@.subrange(
                    old(self).files_autodep@.len() as int,
                    final(self).files_autodep@.len() as int,
                ),
            ),
            final(self).files_to_check@ == old(self).files_to_check@
                + target_management.files_to_check@,
            final(self).shared_objects_to_copy@ == old(self).shared_objects_to_copy@,
    {
        let mut target_management = target_management;
        let ghost raw = target_management;
        target_management.resolve_environmental_variables(resolve);
        proof {
            lemma_resolved_strs_views(*resolve, raw.dirs_to_make@, target_management.dirs_to_make@);
            lemma_resolved_pairs_views(*resolve, raw.links_to_create@, target_management.links_to_create@);
            lemma_resolved_pairs_views(*resolve, raw.dirs_to_copy@, target_management.dirs_to_copy@);
            lemma_resolved_pairs_views(*resolve, raw.files_to_copy@, target_management.files_to_copy@);
            lemma_resolved_strs_views(*resolve, raw.files_autodep@, target_management.files_autodep@);
        }
        let TargetManagement {
            dirs_to_make,
            links_to_create,
            dirs_to_copy,
            files_to_copy,
            files_autodep,
            files_to_check,
        } = target_management;
        append_strs(&mut self.dirs_to_make, dirs_to_make);
        append_pairs(&mut self.links_to_create, links_to_create);
        append_pairs(&mut self.dirs_to_copy, dirs_to_copy);
        append_pairs(&mut self.files_to_copy, files_to_copy);
        append_strs(&mut self.files_autodep, files_autodep);
        append_pairs(&mut self.files_to_check, files_to_check);
        assert(self.dirs_to_make@.subrange(0, old(self).dirs_to_make@.len() as int) =~= old(self).dirs_to_make@);
        assert(self.dirs_to_make@.subrange(old(self).dirs_to_make@.len() as int, self.dirs_to_make@.len() as int) =~= dirs_to_make@);
        assert(self.links_to_create@.subrange(0, old(self).links_to_create@.len() as int) =~= old(self).links_to_create@);
        assert(self.links_to_create@.subrange(old(self).links_to_create@.len() as int, self.links_to_create@.len() as int) =~= links_to_create@);
        assert(self.dirs_to_copy@.subrange(0, old(self).dirs_to_copy@.len() as int) =~= old(self).dirs_to_copy@);
        assert(self.dirs_to_copy@.subrange(old(self).dirs_to_copy@.len() as int, self.dirs_to_copy@.len() as int) =~= dirs_to_copy@);
        assert(self.files_to_copy@.subrange(0, old(self).files_to_copy@.len() as int) =~= old(self).files_to_copy@);
        assert(self.files_to_copy@.subrange(old(self).files_to_copy@.len() as int, self.files_to_copy@.len() as int) =~= files_to_copy@);
        assert(self.files_autodep@.subrange(0, old(self).files_autodep@.len() as int) =~= old(self).files_autodep@);
        assert(self.files_autodep@.subrange(old(self).files_autodep@.len() as int, self.files_autodep@.len() as int) =~= files_autodep@);
    }

    /// Folds in the shared-library dependencies found for one file: each pair
    /// names where a dependency is read and where it goes, relative to
    /// `root_dir`. For each, the directory that will hold it is created, then
    /// the dependency is copied.
    pub fn autodep(&mut self, shared_objects: Vec<(String, String)>, root_dir: &str)
        ensures
            strs(final(self).dirs_to_make@) == strs(old(self).dirs_to_make@) + pairs(
                shared_objects@,
            ).map_values(|d: (Seq<char>, Seq<char>)| dep_dir(root_dir@, d)),
            pairs(final(self).shared_objects_to_copy@) == pairs(
                old(self).shared_objects_to_copy@,
            ) + pairs(shared_objects@).map_values(
                |d: (Seq<char>, Seq<char>)| dep_copy(root_dir@, d),
            ),
            final(self).links_to_create@ == old(self).links_to_create@,
            final(self).dirs_to_copy@ == old(self).dirs_to_copy@,
            final(self).files_to_copy@ == old(self).files_to_copy@,
            final(self).files_autodep@ == old(self).files_autodep@,
            final(self).files_to_check@ == old(self).files_to_check@,
    {
        let ghost deps = pairs(shared_objects@);
        let ghost dirs0 = strs(self.dirs_to_make@);
        let ghost copies0 = pairs(self.shared_objects_to_copy@);
        let mut i: usize = 0;
        while i < shared_objects.len()
            invariant
                i <= shared_objects.len(),
                deps == pairs(shared_objects@),
                self.links_to_create@ == old(self).links_to_create@,
                self.dirs_to_copy@ == old(self).dirs_to_copy@,
                self.files_to_copy@ == old(self).files_to_copy@,
                self.files_autodep@ == old(self).files_autodep@,
                self.files_to_check@ == old(self).files_to_check@,
                dirs0 == strs(old(self).dirs_to_make@),
                copies0 == pairs(old(self).shared_objects_to_copy@),
                strs(self.dirs_to_make@) =~= dirs0 + deps.subrange(0, i as int).map_values(
                    |d: (Seq<char>, Seq<char>)| dep_dir(root_dir@, d),
                ),
                pairs(self.shared_objects_to_copy@) =~= copies0 + deps.subrange(
                    0,
                    i as int,
                ).map_values(|d: (Seq<char>, Seq<char>)| dep_copy(root_dir@, d)),
            decreases shared_objects.len() - i,
        {
            let dest_path = dest_in_root(root_dir, shared_objects[i].1.as_str());
            let dest_dir = parent(dest_path.as_str());
            let src = shared_objects[i].0.clone();
            proof {
                lemma_strs_push(self.dirs_to_make@, dest_dir);
                lemma_pairs_push(self.shared_objects_to_copy@, (src, dest_path));
                assert(deps.subrange(0, i + 1) =~= deps.subrange(0, i as int).push(deps[i as int]));
            }
            self.dirs_to_make.push(dest_dir);
            self.shared_objects_to_copy.push((src, dest_path));
            i = i + 1;
        }
        assert(deps.subrange(0, i as int) =~= deps);
    }
}

/// One filesystem operation, with its paths already placed and substituted.
#[derive(Debug, Clone)]
pub enum Operation {
    MakeDir(String),
    CreateLink(String, String),
    CopyTree(String, String),
    CopyFile(String, String),
    CopySharedObject(String, String),
}

/// An operation as paths of characters.
pub enum OpView {
    MakeDir(Seq<char>),
    CreateLink(Seq<char>, Seq<char>),
    CopyTree(Seq<char>, Seq<char>),
    CopyFile(Seq<char>, Seq<char>),
    CopySharedObject(Seq<char>, Seq<char>),
}

impl View for Operation {
    type V = OpView;

    open spec fn view(&self) -> OpView {
        match self {
            Operation::MakeDir(d) => OpView::MakeDir(d@),
            Operation::CreateLink(a, b) => OpView::CreateLink(a@, b@),
            Operation::CopyTree(a, b) => OpView::CopyTree(a@, b@),
            Operation::CopyFile(a, b) => OpView::CopyFile(a@, b@),
            Operation::CopySharedObject(a, b) => OpView::CopySharedObject(a@, b@),
        }
    }
}

/// The kinds of operation that take a source and a destination.
#[derive(Clone, Copy, PartialEq, Eq, Structural)]
pub enum PairKind {
    Link,
    Tree,
    File,
    SharedObject,
}

pub open spec fn pair_op(kind: PairKind, p: (Seq<char>, Seq<char>)) -> OpView {
    match kind {
        PairKind::Link => OpView::CreateLink(p.0, p.1),
        PairKind::Tree => OpView::CopyTree(p.0, p.1),
        PairKind::File => OpView::CopyFile(p.0, p.1),
        PairKind::SharedObject => OpView::CopySharedObject(p.0, p.1),
    }
}

pub open spec fn ops_of(v: Seq<Operation>) -> Seq<OpView> {
    v.map_values(|o: Operation| o@)
}

/// Appends one operation of `kind` for each pair of `v`.
pub fn push_pair_ops(ops: &mut Vec<Operation>, v: &Vec<(String, String)>, kind: PairKind)
    ensures
        ops_of(final(ops)@) == ops_of(old(ops)@) + pairs(v@).map_values(
            |p: (Seq<char>, Seq<char>)| pair_op(kind, p),
        ),
{
    let ghost want = pairs(v@).map_values(|p: (Seq<char>, Seq<char>)| pair_op(kind, p));
    let mut i: usize = 0;
    while i < v.len()
        invariant
            i <= v.len(),
            want == pairs(v@).map_values(|p: (Seq<char>, Seq<char>)| pair_op(kind, p)),
            ops_of(ops@) =~= ops_of(old(ops)@) + want.subrange(0, i as int),
        decreases v.len() - i,
    {
        let a = v[i].0.clone();
        let b = v[i].1.clone();
        let op = match kind {
            PairKind::Link => Operation::CreateLink(a, b),
            PairKind::Tree => Operation::CopyTree(a, b),
            PairKind::File => Operation::CopyFile(a, b),
            PairKind::SharedObject => Operation::CopySharedObject(a, b),
        };
        let ghost before = ops@;
        ops.push(op);
        assert(ops_of(ops@) =~= ops_of(before).push(want[i as int]));
        i = i + 1;
    }
    assert(want.subrange(0, i as int) =~= want);
}

impl BomManagement {
    /// The operations in the order in which they run: directories, links,
    /// trees, files, then shared objects.
    pub open spec fn operations_spec(self) -> Seq<OpView> {
        strs(self.dirs_to_make@).map_values(|d: Seq<char>| OpView::MakeDir(d)) + pairs(
            self.links_to_create@,
        ).map_values(|p: (Seq<char>, Seq<char>)| pair_op(PairKind::Link, p)) + pairs(
            self.dirs_to_copy@,
        ).map_values(|p: (Seq<char>, Seq<char>)| pair_op(PairKind::Tree, p)) + pairs(
            self.files_to_copy@,
        ).map_values(|p: (Seq<char>, Seq<char>)| pair_op(PairKind::File, p)) + pairs(
            self.shared_objects_to_copy@,
        ).map_values(|p: (Seq<char>, Seq<char>)| pair_op(PairKind::SharedObject, p))
    }

    /// The operations of this manifest in the order in which they run.
    pub fn manage(&self) -> (r: Vec<Operation>)
        ensures
            ops_of(r@) == self.operations_spec(),
    {
        let mut ops: Vec<Operation> = Vec::new();
        let ghost dirs = strs(self.dirs_to_make@).map_values(|d: Seq<char>| OpView::MakeDir(d));
        let mut i: usize = 0;
        while i < self.dirs_to_make.len()
            invariant
                i <= self.dirs_to_make.len(),
                dirs == strs(self.dirs_to_make@).map_values(|d: Seq<char>| OpView::MakeDir(d)),
                ops_of(ops@) =~= dirs.subrange(0, i as int),
            decreases self.dirs_to_make.len() - i,
        {
            let ghost before = ops@;
            ops.push(Operation::MakeDir(self.dirs_to_make[i].clone()));
            assert(ops_of(ops@) =~= ops_of(before).push(dirs[i as int]));
            i = i + 1;
        }
        assert(dirs.subrange(0, i as int) =~= dirs);
        push_pair_ops(&mut ops, &self.links_to_create, PairKind::Link);
        push_pair_ops(&mut ops, &self.dirs_to_copy, PairKind::Tree);
        push_pair_ops(&mut ops, &self.files_to_copy, PairKind::File);
        push_pair_ops(&mut ops, &self.shared_objects_to_copy, PairKind::SharedObject);
        ops
    }
}

/// What to run for one manifest: its operations in order, the patterns that
/// its tree copies leave out, and whether the run only reports.
pub struct Run {
    pub dry_run: bool,
    pub excludes: Vec<String>,
    pub operations: Vec<Operation>,
}

} // verus!
