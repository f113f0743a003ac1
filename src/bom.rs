//! The manifest model: a bill of materials with its targets, links, sources
//! and files, and what each of them asks to be done under a root directory.
use vstd::prelude::*;
use vstd::string::StringExecFns;

use crate::management::{
    lemma_resolved_pair_views_concat, lemma_resolved_views_concat, resolved_pair_views,
    resolved_views, ops_of, BomManagement, Run, SourceManagement, TargetManagement,
};
use crate::paths::{
    base_name, dest_in_root, lemma_base_name_join, ensure_trailing_sep, file_name, in_root, join, join_path,
    with_trailing_sep, workspace_dir, workspace_of,
};
use crate::seqs::{
    append_pairs, append_strs, concat_all, lemma_concat_all_prefix, lemma_pairs_push,
    lemma_strs_push, opt_seq, pairs, strs,
};

verus! {

/// A whole manifest.
#[derive(Debug, Clone)]
pub struct Bom {
    pub includes: Option<Vec<String>>,
    pub excludes: Option<Vec<String>>,
    pub targets: Option<Vec<Target>>,
}

/// One destination subtree of a manifest.
#[derive(Debug, Clone)]
pub struct Target {
    pub target: String,
    pub mkdirs: Option<Vec<String>>,
    pub createlinks: Option<Vec<SymLink>>,
    pub copy: Option<Vec<Source>>,
}

/// A symbolic link to create: `linkname` lies under the target and points at `src`.
#[derive(Debug, Clone)]
pub struct SymLink {
    pub src: String,
    pub linkname: String,
}

/// A group of directories and files that share one base directory.
#[derive(Debug, Clone)]
pub struct Source {
    pub from: Option<String>,
    pub dirs: Option<Vec<String>>,
    pub files: Option<Vec<NormalFile>>,
}

/// A file to copy: a bare name, or a name with options.
#[derive(Debug, Clone, PartialEq, Eq)]
pub enum NormalFile {
    FileName(String),
    FileWithOption(FileWithOption),
}

/// A file with an expected hash, a switch for dependency capture and a new name.
#[derive(Debug, Clone, PartialEq, Eq)]
pub struct FileWithOption {
    pub name: String,
    pub hash: Option<String>,
    pub autodep: Option<bool>,
    pub rename: Option<String>,
}

/// The ways in which a manifest set can be refused.
#[derive(Debug, Clone, Copy, PartialEq, Eq, Structural)]
pub enum BomError {
    /// A source that names neither directories nor files has no `from`.
    MissingFrom,
    /// The inclusion graph did not settle within the bound on rounds.
    IncludeCycle,
}

impl NormalFile {
    pub open spec fn name_of(self) -> Seq<char> {
        match self {
            NormalFile::FileName(n) => n@,
            NormalFile::FileWithOption(f) => f.name@,
        }
    }

    /// Where the file is read from.
    pub open spec fn src_file(self, src_dir: Seq<char>) -> Seq<char> {
        join_path(src_dir, self.name_of())
    }

    /// Where the file is copied to: its new name, or else its own last component,
    /// under the target directory.
    pub open spec fn dest_file(self, src_dir: Seq<char>, target_dir: Seq<char>) -> Seq<char> {
        match self {
            NormalFile::FileWithOption(f) => match f.rename {
                Some(r) => join_path(target_dir, r@),
                None => join_path(target_dir, base_name(self.src_file(src_dir))),
            },
            NormalFile::FileName(_) => join_path(target_dir, base_name(self.src_file(src_dir))),
        }
    }

    /// Whether the file's shared-library dependencies are captured: yes unless
    /// switched off.
    pub open spec fn captures_deps(self) -> bool {
        match self {
            NormalFile::FileName(_) => true,
            NormalFile::FileWithOption(f) => f.autodep != Some(false),
        }
    }

    pub open spec fn copy_part(self, src_dir: Seq<char>, target_dir: Seq<char>) -> Seq<
        (Seq<char>, Seq<char>),
    > {
        seq![(self.src_file(src_dir), self.dest_file(src_dir, target_dir))]
    }

    pub open spec fn autodep_part(self, src_dir: Seq<char>) -> Seq<Seq<char>> {
        if self.captures_deps() {
            seq![self.src_file(src_dir)]
        } else {
            Seq::empty()
        }
    }

    /// The source path and expected hash, where a hash is given.
    pub open spec fn check_part(self, src_dir: Seq<char>) -> Seq<(Seq<char>, Seq<char>)> {
        match self {
            NormalFile::FileWithOption(f) => match f.hash {
                Some(h) => seq![(self.src_file(src_dir), h@)],
                None => Seq::empty(),
            },
            NormalFile::FileName(_) => Seq::empty(),
        }
    }

    /// The copy, the dependency-capture candidate and the hash check that this
    /// file asks for, with `src_dir` as its base and `target_dir` as its destination.
    pub fn get_file_to_copy_and_autodep(&self, src_dir: &str, target_dir: &str) -> (r: (
        Vec<(String, String)>,
        Vec<String>,
        Vec<(String, String)>,
    ))
        ensures
            pairs(r.0@) == self.copy_part(src_dir@, target_dir@),
            strs(r.1@) == self.autodep_part(src_dir@),
            pairs(r.2@) == self.check_part(src_dir@),
    {
        let mut file_to_copy: Vec<(String, String)> = Vec::new();
        let mut file_autodep: Vec<String> = Vec::new();
        let mut file_check: Vec<(String, String)> = Vec::new();
        match self {
            NormalFile::FileName(file_name_str) => {
                let src_file = join(src_dir, file_name_str.as_str());
                let target_file = join(target_dir, file_name(src_file.as_str()));
                file_to_copy.push((src_file.clone(), target_file));
                file_autodep.push(src_file);
            },
            NormalFile::FileWithOption(file_with_option) => {
                let src_file = join(src_dir, file_with_option.name.as_str());
                if let Some(hash) = &file_with_option.hash {
                    file_check.push((src_file.clone(), hash.clone()));
                }
                let capture = match file_with_option.autodep {
                    Some(b) => b,
                    None => true,
                };
                if capture {
                    file_autodep.push(src_file.clone());
                }
                let target_file = match &file_with_option.rename {
                    Some(rename) => join(target_dir, rename.as_str()),
                    None => join(target_dir, file_name(src_file.as_str())),
                };
                file_to_copy.push((src_file, target_file));
            },
        }
        assert(pairs(file_to_copy@) =~= self.copy_part(src_dir@, target_dir@));
        assert(strs(file_autodep@) =~= self.autodep_part(src_dir@));
        assert(pairs(file_check@) =~= self.check_part(src_dir@));
        (file_to_copy, file_autodep, file_check)
    }
}

impl Source {
    /// The base directory of the source: `from` under the workspace, or the
    /// workspace itself.
    pub open spec fn src_dir_of(self, workspace: Seq<char>) -> Seq<char> {
        match self.from {
            Some(f) => join_path(workspace, f@),
            None => workspace,
        }
    }

    /// Whether the source names neither directories nor files.
    pub open spec fn is_whole_dir(self) -> bool {
        self.dirs is None && self.files is None
    }

    /// A source is well formed unless it names neither directories nor files
    /// and has no `from` either.
    pub open spec fn well_formed(self) -> bool {
        self.is_whole_dir() ==> self.from is Some
    }

    pub open spec fn declared_dirs(self, src_dir: Seq<char>, target_dir: Seq<char>) -> Seq<
        (Seq<char>, Seq<char>),
    > {
        opt_seq(self.dirs).map_values(|d: String| (join_path(src_dir, d@), target_dir))
    }

    /// The trees to copy: each declared directory, or the whole `from`
    /// directory (with a trailing separator) where nothing is declared.
    pub open spec fn dirs_spec(self, workspace: Seq<char>, target_dir: Seq<char>) -> Seq<
        (Seq<char>, Seq<char>),
    > {
        self.declared_dirs(self.src_dir_of(workspace), target_dir) + if self.is_whole_dir() {
            seq![(with_trailing_sep(self.from->0@), target_dir)]
        } else {
            Seq::empty()
        }
    }

    pub open spec fn files_seq(self) -> Seq<NormalFile> {
        opt_seq(self.files)
    }

    pub open spec fn files_spec(self, src_dir: Seq<char>, target_dir: Seq<char>) -> Seq<
        (Seq<char>, Seq<char>),
    > {
        concat_all(self.files_seq().map_values(|f: NormalFile| f.copy_part(src_dir, target_dir)))
    }

    pub open spec fn autodep_spec(self, src_dir: Seq<char>) -> Seq<Seq<char>> {
        concat_all(self.files_seq().map_values(|f: NormalFile| f.autodep_part(src_dir)))
    }

    pub open spec fn checks_spec(self, src_dir: Seq<char>) -> Seq<(Seq<char>, Seq<char>)> {
        concat_all(self.files_seq().map_values(|f: NormalFile| f.check_part(src_dir)))
    }

    /// The operations of this source, for a given workspace and target directory.
    pub open spec fn management_spec(
        self,
        workspace: Seq<char>,
        target_dir: Seq<char>,
        m: SourceManagement,
    ) -> bool {
        let sd = self.src_dir_of(workspace);
        &&& pairs(m.dirs_to_copy@) == self.dirs_spec(workspace, target_dir)
        &&& pairs(m.files_to_copy@) == self.files_spec(sd, target_dir)
        &&& strs(m.files_autodep@) == self.autodep_spec(sd)
        &&& pairs(m.files_to_check@) == self.checks_spec(sd)
    }

    /// The copy of each declared directory from `src_dir` into `target_dir`.
    pub fn get_dirs_to_copy(&self, src_dir: &str, target_dir: &str) -> (r: Vec<(String, String)>)
        ensures
            pairs(r@) == self.declared_dirs(src_dir@, target_dir@),
    {
        let mut dirs_to_copy: Vec<(String, String)> = Vec::new();
        if let Some(dirs) = &self.dirs {
            let mut i: usize = 0;
            while i < dirs.len()
                invariant
                    i <= dirs.len(),
                    self.dirs == Some(*dirs),
                    pairs(dirs_to_copy@) =~= self.declared_dirs(src_dir@, target_dir@).subrange(
                        0,
                        i as int,
                    ),
                decreases dirs.len() - i,
            {
                let src_path = join(src_dir, dirs[i].as_str());
                let dest = String::from_str(target_dir);
                proof {
                    lemma_pairs_push(dirs_to_copy@, (src_path, dest));
                }
                dirs_to_copy.push((src_path, dest));
                i = i + 1;
            }
        }
        dirs_to_copy
    }

    /// The copies, dependency-capture candidates and hash checks of all files.
    pub fn get_files_to_copy_and_autodep(&self, src_dir: &str, target_dir: &str) -> (r: (
        Vec<(String, String)>,
        Vec<String>,
        Vec<(String, String)>,
    ))
        ensures
            pairs(r.0@) == self.files_spec(src_dir@, target_dir@),
            strs(r.1@) == self.autodep_spec(src_dir@),
            pairs(r.2@) == self.checks_spec(src_dir@),
    {
        let mut files_to_copy: Vec<(String, String)> = Vec::new();
        let mut files_autodep: Vec<String> = Vec::new();
        let mut files_to_check: Vec<(String, String)> = Vec::new();
        let ghost fs = self.files_seq();
        let ghost copies = fs.map_values(|f: NormalFile| f.copy_part(src_dir@, target_dir@));
        let ghost autos = fs.map_values(|f: NormalFile| f.autodep_part(src_dir@));
        let ghost checks = fs.map_values(|f: NormalFile| f.check_part(src_dir@));
        if let Some(files) = &self.files {
            let mut i: usize = 0;
            while i < files.len()
                invariant
                    i <= files.len(),
                    fs == files@,
                    copies == fs.map_values(
                        |f: NormalFile| f.copy_part(src_dir@, target_dir@),
                    ),
                    autos == fs.map_values(|f: NormalFile| f.autodep_part(src_dir@)),
                    checks == fs.map_values(|f: NormalFile| f.check_part(src_dir@)),
                    pairs(files_to_copy@) == concat_all(copies.subrange(0, i as int)),
                    strs(files_autodep@) == concat_all(autos.subrange(0, i as int)),
                    pairs(files_to_check@) == concat_all(checks.subrange(0, i as int)),
                decreases files.len() - i,
            {
                let (c, a, h) = files[i].get_file_to_copy_and_autodep(src_dir, target_dir);
                proof {
                    lemma_concat_all_prefix(copies, i as int);
                    lemma_concat_all_prefix(autos, i as int);
                    lemma_concat_all_prefix(checks, i as int);
                }
                append_pairs(&mut files_to_copy, c);
                append_strs(&mut files_autodep, a);
                append_pairs(&mut files_to_check, h);
                i = i + 1;
            }
            assert(copies.subrange(0, i as int) =~= copies);
            assert(autos.subrange(0, i as int) =~= autos);
            assert(checks.subrange(0, i as int) =~= checks);
        } else {
            assert(copies =~= Seq::empty());
            assert(autos =~= Seq::empty());
            assert(checks =~= Seq::empty());
            assert(pairs(files_to_copy@) =~= Seq::empty());
            assert(strs(files_autodep@) =~= Seq::empty());
            assert(pairs(files_to_check@) =~= Seq::empty());
        }
        (files_to_copy, files_autodep, files_to_check)
    }

    /// All operations of this source, with its base directory taken under
    /// `workspace_dir` and `target_dir` as destination. Fails exactly when the
    /// source names neither directories nor files and has no `from`.
    pub fn get_source_management(&self, workspace_dir: &str, target_dir: &str) -> (r: Result<
        SourceManagement,
        BomError,
    >)
        ensures
            match r {
                Ok(m) => self.well_formed() && self.management_spec(workspace_dir@, target_dir@, m),
                Err(e) => !self.well_formed() && e == BomError::MissingFrom,
            },
    {
        let src_dir = match &self.from {
            Some(from) => join(workspace_dir, from.as_str()),
            None => String::from_str(workspace_dir),
        };
        let mut dirs_to_copy = self.get_dirs_to_copy(src_dir.as_str(), target_dir);
        let (files_to_copy, files_autodep, files_to_check) = self.get_files_to_copy_and_autodep(
            src_dir.as_str(),
            target_dir,
        );
        if self.files.is_none() && self.dirs.is_none() {
            match &self.from {
                None => {
                    return Err(BomError::MissingFrom);
                },
                Some(from) => {
                    let new_src = ensure_trailing_sep(from.as_str());
                    let dest = String::from_str(target_dir);
                    proof {
                        lemma_pairs_push(dirs_to_copy@, (new_src, dest));
                    }
                    dirs_to_copy.push((new_src, dest));
                    assert(pairs(dirs_to_copy@) =~= self.dirs_spec(workspace_dir@, target_dir@));
                },
            }
        } else {
            assert(pairs(dirs_to_copy@) =~= self.dirs_spec(workspace_dir@, target_dir@));
        }
        Ok(SourceManagement { dirs_to_copy, files_to_copy, files_autodep, files_to_check })
    }
}

impl Target {
    /// The destination of this target under `root`.
    pub open spec fn target_path(self, root: Seq<char>) -> Seq<char> {
        in_root(root, self.target@)
    }

    /// The target's own directory, then each `mkdirs` entry under it.
    pub open spec fn dirs_spec(self, root: Seq<char>) -> Seq<Seq<char>> {
        let tp = self.target_path(root);
        seq![tp] + opt_seq(self.mkdirs).map_values(|d: String| join_path(tp, d@))
    }

    /// Each link: its `src` as written, its name under the target's directory.
    pub open spec fn links_spec(self, root: Seq<char>) -> Seq<(Seq<char>, Seq<char>)> {
        let tp = self.target_path(root);
        opt_seq(self.createlinks).map_values(|l: SymLink| (l.src@, join_path(tp, l.linkname@)))
    }

    pub open spec fn sources(self) -> Seq<Source> {
        opt_seq(self.copy)
    }

    pub open spec fn well_formed(self) -> bool {
        forall|i: int| 0 <= i < self.sources().len() ==> #[trigger] self.sources()[i].well_formed()
    }

    pub open spec fn copy_dirs_spec(self, root: Seq<char>) -> Seq<(Seq<char>, Seq<char>)> {
        let (ws, tp) = (workspace_of(root), self.target_path(root));
        concat_all(self.sources().map_values(|s: Source| s.dirs_spec(ws, tp)))
    }

    pub open spec fn copy_files_spec(self, root: Seq<char>) -> Seq<(Seq<char>, Seq<char>)> {
        let (ws, tp) = (workspace_of(root), self.target_path(root));
        concat_all(self.sources().map_values(|s: Source| s.files_spec(s.src_dir_of(ws), tp)))
    }

    pub open spec fn autodep_spec(self, root: Seq<char>) -> Seq<Seq<char>> {
        let ws = workspace_of(root);
        concat_all(self.sources().map_values(|s: Source| s.autodep_spec(s.src_dir_of(ws))))
    }

    pub open spec fn checks_spec(self, root: Seq<char>) -> Seq<(Seq<char>, Seq<char>)> {
        let ws = workspace_of(root);
        concat_all(self.sources().map_values(|s: Source| s.checks_spec(s.src_dir_of(ws))))
    }

    /// The operations of this target under `root`, before any substitution.
    pub open spec fn management_spec(self, root: Seq<char>, m: TargetManagement) -> bool {
        &&& strs(m.dirs_to_make@) == self.dirs_spec(root)
        &&& pairs(m.links_to_create@) == self.links_spec(root)
        &&& pairs(m.dirs_to_copy@) == self.copy_dirs_spec(root)
        &&& pairs(m.files_to_copy@) == self.copy_files_spec(root)
        &&& strs(m.files_autodep@) == self.autodep_spec(root)
        &&& pairs(m.files_to_check@) == self.checks_spec(root)
    }

    /// The directories to create for this target under `root`.
    pub fn get_dirs_to_make(&self, root_dir: &str) -> (r: Vec<String>)
        ensures
            strs(r@) == self.dirs_spec(root_dir@),
    {
        let target_path = dest_in_root(root_dir, self.target.as_str());
        let mut dirs_to_make: Vec<String> = Vec::new();
        dirs_to_make.push(target_path.clone());
        let ghost tp = target_path@;
        let ghost tail = opt_seq(self.mkdirs).map_values(|d: String| join_path(tp, d@));
        if let Some(dirs) = &self.mkdirs {
            let mut i: usize = 0;
            while i < dirs.len()
                invariant
                    i <= dirs.len(),
                    self.mkdirs == Some(*dirs),
                    tp == target_path@,
                    tail == dirs@.map_values(|d: String| join_path(tp, d@)),
                    strs(dirs_to_make@) =~= seq![tp] + tail.subrange(0, i as int),
                decreases dirs.len() - i,
            {
                let dir_path = join(target_path.as_str(), dirs[i].as_str());
                proof {
                    lemma_strs_push(dirs_to_make@, dir_path);
                }
                dirs_to_make.push(dir_path);
                i = i + 1;
            }
        } else {
            assert(strs(dirs_to_make@) =~= self.dirs_spec(root_dir@));
        }
        dirs_to_make
    }

    /// The links to create for this target under `root`.
    pub fn get_links_to_create(&self, root_dir: &str) -> (r: Vec<(String, String)>)
        ensures
            pairs(r@) == self.links_spec(root_dir@),
    {
        let target_path = dest_in_root(root_dir, self.target.as_str());
        let mut links_to_create: Vec<(String, String)> = Vec::new();
        if let Some(links) = &self.createlinks {
            let mut i: usize = 0;
            while i < links.len()
                invariant
                    i <= links.len(),
                    self.createlinks == Some(*links),
                    target_path@ == self.target_path(root_dir@),
                    pairs(links_to_create@) =~= self.links_spec(root_dir@).subrange(0, i as int),
                decreases links.len() - i,
            {
                let link = &links[i];
                let linkname = join(target_path.as_str(), link.linkname.as_str());
                let src = link.src.clone();
                proof {
                    lemma_pairs_push(links_to_create@, (src, linkname));
                }
                links_to_create.push((src, linkname));
                i = i + 1;
            }
        }
        links_to_create
    }

    /// The operations of each source of this target, in order. Fails exactly
    /// when one of the sources is not well formed.
    pub fn get_source_managements(&self, root_dir: &str) -> (r: Result<
        Vec<SourceManagement>,
        BomError,
    >)
        ensures
            match r {
                Ok(v) => {
                    &&& self.well_formed()
                    &&& v.len() == self.sources().len()
                    &&& forall|i: int|
                        0 <= i < v.len() ==> #[trigger] self.sources()[i].management_spec(
                            workspace_of(root_dir@),
                            self.target_path(root_dir@),
                            v[i],
                        )
                },
                Err(e) => !self.well_formed() && e == BomError::MissingFrom,
            },
    {
        let target_path = dest_in_root(root_dir, self.target.as_str());
        let mut source_managements: Vec<SourceManagement> = Vec::new();
        if let Some(sources) = &self.copy {
            let workspace = workspace_dir(root_dir);
            let mut i: usize = 0;
            while i < sources.len()
                invariant
                    i <= sources.len(),
                    self.copy == Some(*sources),
                    target_path@ == self.target_path(root_dir@),
                    workspace@ == workspace_of(root_dir@),
                    source_managements.len() == i,
                    forall|j: int| 0 <= j < i ==> #[trigger] sources@[j].well_formed(),
                    forall|j: int|
                        0 <= j < i ==> #[trigger] sources@[j].management_spec(
                            workspace@,
                            target_path@,
                            source_managements@[j],
                        ),
                decreases sources.len() - i,
            {
                match sources[i].get_source_management(workspace.as_str(), target_path.as_str()) {
                    Ok(m) => {
                        source_managements.push(m);
                    },
                    Err(e) => {
                        assert(!self.sources()[i as int].well_formed());
                        return Err(e);
                    },
                }
                i = i + 1;
            }
        }
        Ok(source_managements)
    }

    /// All operations of this target under `root`, before any substitution.
    /// Fails exactly when one of its sources is not well formed.
    pub fn get_target_management(&self, root_dir: &str) -> (r: Result<TargetManagement, BomError>)
        ensures
            match r {
                Ok(m) => self.well_formed() && self.management_spec(root_dir@, m),
                Err(e) => !self.well_formed() && e == BomError::MissingFrom,
            },
    {
        let dirs_to_make = self.get_dirs_to_make(root_dir);
        let links_to_create = self.get_links_to_create(root_dir);
        let mut source_managements = match self.get_source_managements(root_dir) {
            Ok(v) => v,
            Err(e) => {
                return Err(e);
            },
        };
        let mut target_management = TargetManagement {
            dirs_to_make,
            links_to_create,
            dirs_to_copy: Vec::new(),
            files_to_copy: Vec::new(),
            files_autodep: Vec::new(),
            files_to_check: Vec::new(),
        };
        let ghost all = source_managements@;
        let ghost srcs = self.sources();
        let ghost ws = workspace_of(root_dir@);
        let ghost tp = self.target_path(root_dir@);
        let ghost dirs = srcs.map_values(|s: Source| s.dirs_spec(ws, tp));
        let ghost files = srcs.map_values(|s: Source| s.files_spec(s.src_dir_of(ws), tp));
        let ghost autos = srcs.map_values(|s: Source| s.autodep_spec(s.src_dir_of(ws)));
        let ghost checks = srcs.map_values(|s: Source| s.checks_spec(s.src_dir_of(ws)));
        let n = source_managements.len();
        let mut i: usize = 0;
        while i < n
            invariant
                i <= n,
                n == all.len(),
                n == srcs.len(),
                source_managements@ == all.subrange(i as int, n as int),
                forall|j: int|
                    0 <= j < n ==> #[trigger] srcs[j].management_spec(ws, tp, all[j]),
                dirs == srcs.map_values(|s: Source| s.dirs_spec(ws, tp)),
                files == srcs.map_values(|s: Source| s.files_spec(s.src_dir_of(ws), tp)),
                autos == srcs.map_values(|s: Source| s.autodep_spec(s.src_dir_of(ws))),
                checks == srcs.map_values(|s: Source| s.checks_spec(s.src_dir_of(ws))),
                strs(target_management.dirs_to_make@) == self.dirs_spec(root_dir@),
                pairs(target_management.links_to_create@) == self.links_spec(root_dir@),
                pairs(target_management.dirs_to_copy@) == concat_all(dirs.subrange(0, i as int)),
                pairs(target_management.files_to_copy@) == concat_all(
                    files.subrange(0, i as int),
                ),
                strs(target_management.files_autodep@) == concat_all(autos.subrange(0, i as int)),
                pairs(target_management.files_to_check@) == concat_all(
                    checks.subrange(0, i as int),
                ),
            decreases n - i,
        {
            let m = source_managements.remove(0);
            proof {
                assert(m == all[i as int]);
                assert(srcs[i as int].management_spec(ws, tp, all[i as int]));
                lemma_concat_all_prefix(dirs, i as int);
                lemma_concat_all_prefix(files, i as int);
                lemma_concat_all_prefix(autos, i as int);
                lemma_concat_all_prefix(checks, i as int);
            }
            target_management.add_source_management(m);
            i = i + 1;
            assert(source_managements@ =~= all.subrange(i as int, n as int));
        }
        assert(dirs.subrange(0, n as int) =~= dirs);
        assert(files.subrange(0, n as int) =~= files);
        assert(autos.subrange(0, n as int) =~= autos);
        assert(checks.subrange(0, n as int) =~= checks);
        Ok(target_management)
    }
}

impl Bom {
    pub open spec fn targets_seq(self) -> Seq<Target> {
        opt_seq(self.targets)
    }

    /// A manifest is well formed when each of its targets is.
    pub open spec fn well_formed(self) -> bool {
        forall|i: int|
            0 <= i < self.targets_seq().len() ==> #[trigger] self.targets_seq()[i].well_formed()
    }

    pub open spec fn dirs_spec(self, root: Seq<char>) -> Seq<Seq<char>> {
        concat_all(self.targets_seq().map_values(|t: Target| t.dirs_spec(root)))
    }

    pub open spec fn links_spec(self, root: Seq<char>) -> Seq<(Seq<char>, Seq<char>)> {
        concat_all(self.targets_seq().map_values(|t: Target| t.links_spec(root)))
    }

    pub open spec fn copy_dirs_spec(self, root: Seq<char>) -> Seq<(Seq<char>, Seq<char>)> {
        concat_all(self.targets_seq().map_values(|t: Target| t.copy_dirs_spec(root)))
    }

    pub open spec fn copy_files_spec(self, root: Seq<char>) -> Seq<(Seq<char>, Seq<char>)> {
        concat_all(self.targets_seq().map_values(|t: Target| t.copy_files_spec(root)))
    }

    pub open spec fn autodep_spec(self, root: Seq<char>) -> Seq<Seq<char>> {
        concat_all(self.targets_seq().map_values(|t: Target| t.autodep_spec(root)))
    }

    pub open spec fn checks_spec(self, root: Seq<char>) -> Seq<(Seq<char>, Seq<char>)> {
        concat_all(self.targets_seq().map_values(|t: Target| t.checks_spec(root)))
    }

    /// The operations of this manifest under `root`: the root directory first,
    /// then, target by target, each path passed through `f`; the hash checks
    /// as written; no dependency copies yet.
    pub open spec fn management_spec<F: Fn(String) -> String>(
        self,
        root: Seq<char>,
        f: F,
        m: BomManagement,
    ) -> bool {
        &&& m.dirs_to_make@.len() >= 1
        &&& m.dirs_to_make@[0]@ == root
        &&& resolved_views(f, self.dirs_spec(root), m.dirs_to_make@.drop_first())
        &&& resolved_pair_views(f, self.links_spec(root), m.links_to_create@)
        &&& resolved_pair_views(f, self.copy_dirs_spec(root), m.dirs_to_copy@)
        &&& resolved_pair_views(f, self.copy_files_spec(root), m.files_to_copy@)
        &&& resolved_views(f, self.autodep_spec(root), m.files_autodep@)
        &&& pairs(m.files_to_check@) == self.checks_spec(root)
        &&& m.shared_objects_to_copy@.len() == 0
    }

    /// All operations of this manifest under `root_dir`, with paths passed
    /// through `resolve`. Fails exactly when a source of the manifest is not
    /// well formed.
    pub fn get_bom_management<F: Fn(String) -> String>(&self, root_dir: &str, resolve: &F) -> (r:
        Result<BomManagement, BomError>)
        requires
            forall|s: String| call_requires(*resolve, (s,)),
        ensures
            match r {
                Ok(m) => self.well_formed() && self.management_spec(root_dir@, *resolve, m),
                Err(e) => !self.well_formed() && e == BomError::MissingFrom,
            },
    {
        let mut bom_management = BomManagement::new(root_dir);
        let ghost root = root_dir@;
        let ghost f = *resolve;
        let ghost ts = self.targets_seq();
        let ghost dirs = ts.map_values(|t: Target| t.dirs_spec(root));
        let ghost links = ts.map_values(|t: Target| t.links_spec(root));
        let ghost cdirs = ts.map_values(|t: Target| t.copy_dirs_spec(root));
        let ghost cfiles = ts.map_values(|t: Target| t.copy_files_spec(root));
        let ghost autos = ts.map_values(|t: Target| t.autodep_spec(root));
        let ghost checks = ts.map_values(|t: Target| t.checks_spec(root));
        proof {
            assert(resolved_views(f, Seq::empty(), bom_management.dirs_to_make@.drop_first()));
            assert(resolved_pair_views(f, Seq::empty(), bom_management.links_to_create@));
            assert(resolved_pair_views(f, Seq::empty(), bom_management.dirs_to_copy@));
            assert(resolved_pair_views(f, Seq::empty(), bom_management.files_to_copy@));
            assert(resolved_views(f, Seq::empty(), bom_management.files_autodep@));
            assert(pairs(bom_management.files_to_check@) =~= Seq::empty());
        }
        if let Some(targets) = &self.targets {
            let mut i: usize = 0;
            while i < targets.len()
                invariant
                    i <= targets.len(),
                    self.targets == Some(*targets),
                    ts == targets@,
                    f == *resolve,
                    root == root_dir@,
                    forall|s: String| call_requires(*resolve, (s,)),
                    dirs == ts.map_values(|t: Target| t.dirs_spec(root)),
                    links == ts.map_values(|t: Target| t.links_spec(root)),
                    cdirs == ts.map_values(|t: Target| t.copy_dirs_spec(root)),
                    cfiles == ts.map_values(|t: Target| t.copy_files_spec(root)),
                    autos == ts.map_values(|t: Target| t.autodep_spec(root)),
                    checks == ts.map_values(|t: Target| t.checks_spec(root)),
                    forall|j: int| 0 <= j < i ==> #[trigger] ts[j].well_formed(),
                    bom_management.dirs_to_make@.len() >= 1,
                    bom_management.dirs_to_make@[0]@ == root,
                    resolved_views(
                        f,
                        concat_all(dirs.subrange(0, i as int)),
                        bom_management.dirs_to_make@.drop_first(),
                    ),
                    resolved_pair_views(
                        f,
                        concat_all(links.subrange(0, i as int)),
                        bom_management.links_to_create@,
                    ),
                    resolved_pair_views(
                        f,
                        concat_all(cdirs.subrange(0, i as int)),
                        bom_management.dirs_to_copy@,
                    ),
                    resolved_pair_views(
                        f,
                        concat_all(cfiles.subrange(0, i as int)),
                        bom_management.files_to_copy@,
                    ),
                    resolved_views(
                        f,
                        concat_all(autos.subrange(0, i as int)),
                        bom_management.files_autodep@,
                    ),
                    pairs(bom_management.files_to_check@) == concat_all(
                        checks.subrange(0, i as int),
                    ),
                    bom_management.shared_objects_to_copy@.len() == 0,
                decreases targets.len() - i,
            {
                let target_management = match targets[i].get_target_management(root_dir) {
                    Ok(m) => m,
                    Err(e) => {
                        assert(!self.targets_seq()[i as int].well_formed());
                        return Err(e);
                    },
                };
                let ghost old_m = bom_management;
                let ghost tm = target_management;
                bom_management.add_target_management(target_management, resolve);
                proof {
                    lemma_concat_all_prefix(dirs, i as int);
                    lemma_concat_all_prefix(links, i as int);
                    lemma_concat_all_prefix(cdirs, i as int);
                    lemma_concat_all_prefix(cfiles, i as int);
                    lemma_concat_all_prefix(autos, i as int);
                    lemma_concat_all_prefix(checks, i as int);
                    let n0 = old_m.dirs_to_make@.len() as int;
                    let n1 = bom_management.dirs_to_make@.len() as int;
                    assert(bom_management.dirs_to_make@.drop_first() =~= old_m.dirs_to_make@.drop_first()
                        + bom_management.dirs_to_make@.subrange(n0, n1));
                    lemma_resolved_views_concat(
                        f,
                        concat_all(dirs.subrange(0, i as int)),
                        old_m.dirs_to_make@.drop_first(),
                        dirs[i as int],
                        bom_management.dirs_to_make@.subrange(n0, n1),
                    );
                    let l0 = old_m.links_to_create@.len() as int;
                    let l1 = bom_management.links_to_create@.len() as int;
                    assert(bom_management.links_to_create@ =~= old_m.links_to_create@
                        + bom_management.links_to_create@.subrange(l0, l1));
                    lemma_resolved_pair_views_concat(
                        f,
                        concat_all(links.subrange(0, i as int)),
                        old_m.links_to_create@,
                        links[i as int],
                        bom_management.links_to_create@.subrange(l0, l1),
                    );
                    let c0 = old_m.dirs_to_copy@.len() as int;
                    let c1 = bom_management.dirs_to_copy@.len() as int;
                    assert(bom_management.dirs_to_copy@ =~= old_m.dirs_to_copy@
                        + bom_management.dirs_to_copy@.subrange(c0, c1));
                    lemma_resolved_pair_views_concat(
                        f,
                        concat_all(cdirs.subrange(0, i as int)),
                        old_m.dirs_to_copy@,
                        cdirs[i as int],
                        bom_management.dirs_to_copy@.subrange(c0, c1),
                    );
                    let f0 = old_m.files_to_copy@.len() as int;
                    let f1 = bom_management.files_to_copy@.len() as int;
                    assert(bom_management.files_to_copy@ =~= old_m.files_to_copy@
                        + bom_management.files_to_copy@.subrange(f0, f1));
                    lemma_resolved_pair_views_concat(
                        f,
                        concat_all(cfiles.subrange(0, i as int)),
                        old_m.files_to_copy@,
                        cfiles[i as int],
                        bom_management.files_to_copy@.subrange(f0, f1),
                    );
                    let a0 = old_m.files_autodep@.len() as int;
                    let a1 = bom_management.files_autodep@.len() as int;
                    assert(bom_management.files_autodep@ =~= old_m.files_autodep@
                        + bom_management.files_autodep@.subrange(a0, a1));
                    lemma_resolved_views_concat(
                        f,
                        concat_all(autos.subrange(0, i as int)),
                        old_m.files_autodep@,
                        autos[i as int],
                        bom_management.files_autodep@.subrange(a0, a1),
                    );
                    assert(pairs(bom_management.files_to_check@) =~= pairs(old_m.files_to_check@)
                        + pairs(tm.files_to_check@));
                }
                i = i + 1;
            }
            assert(dirs.subrange(0, i as int) =~= dirs);
            assert(links.subrange(0, i as int) =~= links);
            assert(cdirs.subrange(0, i as int) =~= cdirs);
            assert(cfiles.subrange(0, i as int) =~= cfiles);
            assert(autos.subrange(0, i as int) =~= autos);
            assert(checks.subrange(0, i as int) =~= checks);
        } else {
            assert(dirs =~= Seq::empty());
            assert(links =~= Seq::empty());
            assert(cdirs =~= Seq::empty());
            assert(cfiles =~= Seq::empty());
            assert(autos =~= Seq::empty());
            assert(checks =~= Seq::empty());
        }
        Ok(bom_management)
    }
}

impl Bom {
    /// `r` is the run of this manifest's operations `m`, with `dry_run` as its mode.
    pub open spec fn run_spec(self, m: BomManagement, dry_run: bool, r: Run) -> bool {
        &&& ops_of(r.operations@) == m.operations_spec()
        &&& strs(r.excludes@) == strs(opt_seq(self.excludes))
        &&& r.dry_run == dry_run
    }

    /// The run of this manifest's operations, with its own exclude patterns.
    pub fn manage_self(&self, bom_management: BomManagement, dry_run: bool) -> (r: Run)
        ensures
            self.run_spec(bom_management, dry_run, r),
    {
        let mut excludes: Vec<String> = Vec::new();
        if let Some(patterns) = &self.excludes {
            let mut i: usize = 0;
            while i < patterns.len()
                invariant
                    i <= patterns.len(),
                    self.excludes == Some(*patterns),
                    strs(excludes@) =~= strs(patterns@).subrange(0, i as int),
                decreases patterns.len() - i,
            {
                proof {
                    lemma_strs_push(excludes@, patterns@[i as int]);
                }
                excludes.push(patterns[i].clone());
                i = i + 1;
            }
            assert(strs(patterns@).subrange(0, i as int) =~= strs(patterns@));
        } else {
            assert(strs(excludes@) =~= strs(opt_seq(self.excludes)));
        }
        Run { dry_run, excludes, operations: bom_management.manage() }
    }

    /// The operations of each manifest of `boms`, in order, under `root_dir`
    /// and with paths passed through `resolve`. Fails exactly when one of the
    /// manifests is not well formed.
    pub fn manage_top_bom<F: Fn(String) -> String>(
        boms: &Vec<Bom>,
        root_dir: &str,
        resolve: &F,
    ) -> (r: Result<Vec<BomManagement>, BomError>)
        requires
            forall|s: String| call_requires(*resolve, (s,)),
        ensures
            match r {
                Ok(v) => {
                    &&& v.len() == boms.len()
                    &&& forall|i: int|
                        0 <= i < boms.len() ==> #[trigger] boms@[i].well_formed()
                            && boms@[i].management_spec(root_dir@, *resolve, v@[i])
                },
                Err(e) => e == BomError::MissingFrom && exists|i: int|
                    0 <= i < boms.len() && !(#[trigger] boms@[i].well_formed()),
            },
    {
        let mut bom_managements: Vec<BomManagement> = Vec::new();
        let mut i: usize = 0;
        while i < boms.len()
            invariant
                i <= boms.len(),
                forall|s: String| call_requires(*resolve, (s,)),
                bom_managements.len() == i,
                forall|j: int|
                    0 <= j < i ==> #[trigger] boms@[j].well_formed() && boms@[j].management_spec(
                        root_dir@,
                        *resolve,
                        bom_managements@[j],
                    ),
            decreases boms.len() - i,
        {
            match boms[i].get_bom_management(root_dir, resolve) {
                Ok(m) => {
                    bom_managements.push(m);
                },
                Err(e) => {
                    assert(!boms@[i as int].well_formed());
                    return Err(e);
                },
            }
            i = i + 1;
        }
        Ok(bom_managements)
    }
}

/// Whether a run reports or acts has no bearing on what it runs: the runs of
/// one manifest's operations in either mode hold the same operations, in the
/// same order, with the same paths, and the same exclude patterns.
pub proof fn lemma_dry_run_same_operations(bom: Bom, m: BomManagement, dry: Run, live: Run)
    requires
        bom.run_spec(m, true, dry),
        bom.run_spec(m, false, live),
    ensures
        ops_of(dry.operations@) == ops_of(live.operations@),
        strs(dry.excludes@) == strs(live.excludes@),
{
}

/// A source that names neither directories nor files copies its whole `from`
/// directory as one tree, with a trailing separator, into the target, and
/// nothing else; without `from` it is not well formed, so it is refused.
pub proof fn lemma_whole_dir_fallback(s: Source, workspace: Seq<char>, target_dir: Seq<char>)
    requires
        s.is_whole_dir(),
    ensures
        s.from is None ==> !s.well_formed(),
        s.from is Some ==> s.dirs_spec(workspace, target_dir) == seq![
            (with_trailing_sep(s.from->0@), target_dir),
        ],
        s.files_spec(s.src_dir_of(workspace), target_dir).len() == 0,
        s.autodep_spec(s.src_dir_of(workspace)).len() == 0,
        s.checks_spec(s.src_dir_of(workspace)).len() == 0,
{
    assert(s.declared_dirs(s.src_dir_of(workspace), target_dir) =~= Seq::empty());
    assert(s.dirs_spec(workspace, target_dir) =~= seq![
        (with_trailing_sep(s.from->0@), target_dir),
    ]);
}

/// A bare file name, and a file with options that leaves `autodep` out, are
/// both candidates for dependency capture; `autodep: false` takes a file out.
pub proof fn lemma_autodep_default(name: String, options: FileWithOption, src_dir: Seq<char>)
    ensures
        NormalFile::FileName(name).autodep_part(src_dir) == seq![
            NormalFile::FileName(name).src_file(src_dir),
        ],
        options.autodep is None ==> NormalFile::FileWithOption(options).autodep_part(src_dir)
            == seq![NormalFile::FileWithOption(options).src_file(src_dir)],
        options.autodep == Some(false) ==> NormalFile::FileWithOption(options).autodep_part(
            src_dir,
        ).len() == 0,
{
}

/// A file with a new name is copied from its name under the source directory
/// to the new name under the target directory; without one, the destination's
/// last component is the source's last component, where that is not empty.
pub proof fn lemma_rename(file: NormalFile, src_dir: Seq<char>, target_dir: Seq<char>)
    ensures
        file.src_file(src_dir) == join_path(src_dir, file.name_of()),
        match file {
            NormalFile::FileWithOption(f) => f.rename is Some ==> file.dest_file(
                src_dir,
                target_dir,
            ) == join_path(target_dir, f.rename->0@),
            NormalFile::FileName(_) => true,
        },
        (match file {
            NormalFile::FileWithOption(f) => f.rename is None,
            NormalFile::FileName(_) => true,
        }) && base_name(file.src_file(src_dir)).len() > 0 ==> base_name(file.dest_file(src_dir, target_dir)) == base_name(
            file.src_file(src_dir),
        ),
{
    if base_name(file.src_file(src_dir)).len() > 0 {
        lemma_base_name_join(target_dir, file.src_file(src_dir));
    }
}

} // verus!
