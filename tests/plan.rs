use copy_bom::bom::{Bom, BomError, FileWithOption, NormalFile, Source, SymLink, Target};
use copy_bom::management::{BomManagement, Operation};
use copy_bom::paths::{dest_in_root, ensure_trailing_sep, file_name, join, parent, workspace_dir};
use copy_bom::walk::{keep_last_occurrences, remove_redundant_items_in_vec, IncludeWalk, WalkStep};

fn s(x: &str) -> String {
    x.to_string()
}

fn strings(xs: &[&str]) -> Vec<String> {
    xs.iter().map(|x| x.to_string()).collect()
}

fn pair(a: &str, b: &str) -> (String, String) {
    (a.to_string(), b.to_string())
}

fn same(x: String) -> String {
    x
}

fn target(name: &str, copy: Vec<Source>) -> Target {
    Target { target: s(name), mkdirs: None, createlinks: None, copy: Some(copy) }
}

fn plan(bom: &Bom, root: &str) -> BomManagement {
    bom.get_bom_management(root, &same).unwrap()
}

#[test]
fn join_places_relative_paths_under_the_base() {
    assert_eq!(join("/ws", "lib"), "/ws/lib");
    assert_eq!(join("/ws/", "lib"), "/ws/lib");
    assert_eq!(join("", "lib"), "lib");
    assert_eq!(join("/ws", "/abs"), "/abs");
}

#[test]
fn dest_in_root_strips_leading_separators() {
    assert_eq!(dest_in_root("/ws/image", "/bin"), "/ws/image/bin");
    assert_eq!(dest_in_root("/ws/image", "//lib64"), "/ws/image/lib64");
    assert_eq!(dest_in_root("/ws/image", "opt/x"), "/ws/image/opt/x");
}

#[test]
fn file_name_and_parent_split_at_the_last_separator() {
    assert_eq!(file_name("/ws/lib/a.so"), "a.so");
    assert_eq!(file_name("a.so"), "a.so");
    assert_eq!(parent("/ws/image/lib/libc.so"), "/ws/image/lib");
    assert_eq!(parent("/x"), "/");
    assert_eq!(parent("x"), "");
}

#[test]
fn workspace_is_the_parent_of_the_root() {
    assert_eq!(workspace_dir("/ws/image"), "/ws");
    assert_eq!(workspace_dir("image"), "");
    assert_eq!(workspace_dir("/"), ".");
    assert_eq!(workspace_dir(""), ".");
}

#[test]
fn trailing_separator_is_added_once() {
    assert_eq!(ensure_trailing_sep("lib"), "lib/");
    assert_eq!(ensure_trailing_sep("lib/"), "lib/");
    assert_eq!(ensure_trailing_sep(""), "/");
}

#[test]
fn redundancy_keeps_the_last_occurrence() {
    let raw = strings(&["A", "B", "A", "C"]);
    assert_eq!(keep_last_occurrences(&raw), strings(&["B", "A", "C"]));
}

#[test]
fn redundancy_on_empty_and_repeated_lists() {
    assert_eq!(keep_last_occurrences(&Vec::new()), Vec::<String>::new());
    assert_eq!(keep_last_occurrences(&strings(&["A", "A", "A"])), strings(&["A"]));
    assert_eq!(keep_last_occurrences(&strings(&["A", "B", "C"])), strings(&["A", "B", "C"]));
}

#[test]
fn first_occurrences_skip_excluded_items() {
    let raw = strings(&["A", "B", "A", "C", "B"]);
    assert_eq!(remove_redundant_items_in_vec(&raw, &Vec::new()), strings(&["A", "B", "C"]));
    assert_eq!(remove_redundant_items_in_vec(&raw, &strings(&["B"])), strings(&["A", "C"]));
}

fn run_walk(graph: &[(&str, &[&str])], root: &str) -> Result<Vec<String>, BomError> {
    let mut walk = IncludeWalk::new(root);
    loop {
        match walk.next_bom() {
            WalkStep::Load(p) => {
                let found = graph
                    .iter()
                    .find(|(name, _)| *name == p.as_str())
                    .map(|(_, inc)| strings(inc))
                    .unwrap_or_default();
                walk.add_includes(found);
            }
            WalkStep::Finished(v) => return Ok(v),
            WalkStep::Refused(e) => return Err(e),
        }
    }
}

#[test]
fn walk_records_in_breadth_first_order_and_keeps_last() {
    let graph: &[(&str, &[&str])] = &[("root", &["x", "y"]), ("x", &["z"]), ("y", &["x"])];
    // visited order: root, x, y, z, x, z -> last occurrences: root, y, x, z
    assert_eq!(run_walk(graph, "root"), Ok(strings(&["root", "y", "x", "z"])));
}

#[test]
fn walk_without_includes_yields_the_root() {
    assert_eq!(run_walk(&[], "root"), Ok(strings(&["root"])));
}

#[test]
fn self_inclusion_is_refused_as_a_cycle() {
    let graph: &[(&str, &[&str])] = &[("root", &["root"])];
    assert_eq!(run_walk(graph, "root"), Err(BomError::IncludeCycle));
}

#[test]
fn transitive_cycle_is_refused() {
    let graph: &[(&str, &[&str])] = &[("root", &["a"]), ("a", &["b"]), ("b", &["root"])];
    assert_eq!(run_walk(graph, "root"), Err(BomError::IncludeCycle));
}

#[test]
fn whole_directory_fallback_copies_from_with_trailing_separator() {
    let source = Source { from: Some(s("lib")), dirs: None, files: None };
    let m = source.get_source_management("/ws", "/ws/image/opt").unwrap();
    assert_eq!(m.dirs_to_copy, vec![pair("lib/", "/ws/image/opt")]);
    assert!(m.files_to_copy.is_empty());
    assert!(m.files_autodep.is_empty());
}

#[test]
fn whole_directory_fallback_without_from_is_refused() {
    let source = Source { from: None, dirs: None, files: None };
    assert!(matches!(source.get_source_management("/ws", "/ws/image"), Err(BomError::MissingFrom)));
    let bom = Bom { includes: None, excludes: None, targets: Some(vec![target("opt", vec![source])]) };
    assert!(matches!(bom.get_bom_management("/ws/image", &same), Err(BomError::MissingFrom)));
}

#[test]
fn declared_dirs_are_copied_under_the_source_base() {
    let source = Source { from: Some(s("build")), dirs: Some(strings(&["etc", "share"])), files: None };
    let m = source.get_source_management("/ws", "/ws/image/usr").unwrap();
    assert_eq!(
        m.dirs_to_copy,
        vec![pair("/ws/build/etc", "/ws/image/usr"), pair("/ws/build/share", "/ws/image/usr")]
    );
}

#[test]
fn autodep_defaults_to_true() {
    let bare = NormalFile::FileName(s("a.so"));
    let (_, auto, _) = bare.get_file_to_copy_and_autodep("/ws/lib", "/ws/image/lib");
    assert_eq!(auto, strings(&["/ws/lib/a.so"]));
    let omitted = NormalFile::FileWithOption(FileWithOption { name: s("b.so"), hash: None, autodep: None, rename: None });
    let (_, auto, _) = omitted.get_file_to_copy_and_autodep("/ws/lib", "/ws/image/lib");
    assert_eq!(auto, strings(&["/ws/lib/b.so"]));
    let off = NormalFile::FileWithOption(FileWithOption { name: s("c.so"), hash: None, autodep: Some(false), rename: None });
    let (copy, auto, _) = off.get_file_to_copy_and_autodep("/ws/lib", "/ws/image/lib");
    assert!(auto.is_empty());
    assert_eq!(copy, vec![pair("/ws/lib/c.so", "/ws/image/lib/c.so")]);
}

#[test]
fn rename_sets_the_destination_name() {
    let renamed = NormalFile::FileWithOption(FileWithOption { name: s("a.so"), hash: None, autodep: None, rename: Some(s("b.so")) });
    let (copy, _, _) = renamed.get_file_to_copy_and_autodep("/ws/src", "/ws/image/t");
    assert_eq!(copy, vec![pair("/ws/src/a.so", "/ws/image/t/b.so")]);
    let plain = NormalFile::FileName(s("sub/a.so"));
    let (copy, _, _) = plain.get_file_to_copy_and_autodep("/ws/src", "/ws/image/t");
    assert_eq!(copy, vec![pair("/ws/src/sub/a.so", "/ws/image/t/a.so")]);
}

#[test]
fn hash_is_recorded_for_checking() {
    let hashed = NormalFile::FileWithOption(FileWithOption { name: s("f"), hash: Some(s("deadbeef")), autodep: Some(false), rename: None });
    let (_, _, checks) = hashed.get_file_to_copy_and_autodep("/ws/x", "/ws/image/x");
    assert_eq!(checks, vec![pair("/ws/x/f", "deadbeef")]);
}

#[test]
fn target_plan_has_dirs_links_and_copies() {
    let t = Target {
        target: s("/bin"),
        mkdirs: Some(strings(&["a", "b"])),
        createlinks: Some(vec![SymLink { src: s("../lib/x"), linkname: s("x") }]),
        copy: Some(vec![Source { from: Some(s("out")), dirs: None, files: Some(vec![NormalFile::FileName(s("tool"))]) }]),
    };
    let bom = Bom { includes: None, excludes: None, targets: Some(vec![t]) };
    let m = plan(&bom, "/ws/image");
    assert_eq!(m.dirs_to_make, strings(&["/ws/image", "/ws/image/bin", "/ws/image/bin/a", "/ws/image/bin/b"]));
    assert_eq!(m.links_to_create, vec![pair("../lib/x", "/ws/image/bin/x")]);
    assert!(m.dirs_to_copy.is_empty());
    assert_eq!(m.files_to_copy, vec![pair("/ws/out/tool", "/ws/image/bin/tool")]);
    assert_eq!(m.files_autodep, strings(&["/ws/out/tool"]));
    assert!(m.shared_objects_to_copy.is_empty());
}

#[test]
fn resolver_is_applied_to_every_planned_path() {
    let t = Target {
        target: s("bin"),
        mkdirs: None,
        createlinks: None,
        copy: Some(vec![Source { from: Some(s("$OUT")), dirs: None, files: Some(vec![NormalFile::FileName(s("tool"))]) }]),
    };
    let bom = Bom { includes: None, excludes: None, targets: Some(vec![t]) };
    let resolve = |x: String| x.replace("$OUT", "build");
    let m = bom.get_bom_management("/ws/image", &resolve).unwrap();
    assert_eq!(m.files_to_copy, vec![pair("/ws/build/tool", "/ws/image/bin/tool")]);
    assert_eq!(m.files_autodep, strings(&["/ws/build/tool"]));
    assert_eq!(m.dirs_to_make, strings(&["/ws/image", "/ws/image/bin"]));
}

#[test]
fn dependencies_make_their_directory_then_copy() {
    let bom = Bom { includes: None, excludes: None, targets: None };
    let mut m = plan(&bom, "/ws/image");
    m.autodep(vec![pair("/usr/lib/libc.so.6", "/lib/libc.so.6")], "/ws/image");
    assert_eq!(m.dirs_to_make, strings(&["/ws/image", "/ws/image/lib"]));
    assert_eq!(m.shared_objects_to_copy, vec![pair("/usr/lib/libc.so.6", "/ws/image/lib/libc.so.6")]);
    let ops = m.manage();
    assert_eq!(ops.len(), 3);
    assert!(matches!(&ops[2], Operation::CopySharedObject(a, b) if a == "/usr/lib/libc.so.6" && b == "/ws/image/lib/libc.so.6"));
}

#[test]
fn operations_run_in_category_order() {
    let t = Target {
        target: s("t"),
        mkdirs: None,
        createlinks: Some(vec![SymLink { src: s("s"), linkname: s("l") }]),
        copy: Some(vec![Source { from: Some(s("d")), dirs: Some(strings(&["sub"])), files: Some(vec![NormalFile::FileName(s("f"))]) }]),
    };
    let bom = Bom { includes: None, excludes: Some(strings(&["*.o"])), targets: Some(vec![t]) };
    let m = plan(&bom, "/w/r");
    let run = bom.manage_self(m, false);
    let kinds: Vec<&str> = run
        .operations
        .iter()
        .map(|o| match o {
            Operation::MakeDir(_) => "mkdir",
            Operation::CreateLink(_, _) => "link",
            Operation::CopyTree(_, _) => "tree",
            Operation::CopyFile(_, _) => "file",
            Operation::CopySharedObject(_, _) => "so",
        })
        .collect();
    assert_eq!(kinds, vec!["mkdir", "mkdir", "link", "tree", "file"]);
    assert_eq!(run.excludes, strings(&["*.o"]));
    assert!(!run.dry_run);
}

fn op_text(o: &Operation) -> String {
    match o {
        Operation::MakeDir(d) => format!("mkdir {}", d),
        Operation::CreateLink(a, b) => format!("link {} {}", a, b),
        Operation::CopyTree(a, b) => format!("tree {} {}", a, b),
        Operation::CopyFile(a, b) => format!("file {} {}", a, b),
        Operation::CopySharedObject(a, b) => format!("so {} {}", a, b),
    }
}

#[test]
fn dry_run_plans_the_same_operations() {
    let t = target("t", vec![Source { from: Some(s("d")), dirs: None, files: Some(vec![NormalFile::FileName(s("f"))]) }]);
    let bom = Bom { includes: None, excludes: None, targets: Some(vec![t]) };
    let dry = bom.manage_self(plan(&bom, "/w/r"), true);
    let live = bom.manage_self(plan(&bom, "/w/r"), false);
    let a: Vec<String> = dry.operations.iter().map(op_text).collect();
    let b: Vec<String> = live.operations.iter().map(op_text).collect();
    assert_eq!(a, b);
    assert!(dry.dry_run && !live.dry_run);
}

#[test]
fn manifest_included_twice_is_planned_once_with_its_hash_check() {
    // root includes x from two targets' worth of references; the walk keeps x once.
    let graph: &[(&str, &[&str])] = &[("root.yaml", &["x.yaml", "x.yaml"])];
    let order = run_walk(graph, "root.yaml").unwrap();
    assert_eq!(order, strings(&["root.yaml", "x.yaml"]));
    let root = Bom { includes: Some(strings(&["x.yaml", "x.yaml"])), excludes: None, targets: None };
    let x = Bom {
        includes: None,
        excludes: None,
        targets: Some(vec![target("opt", vec![Source {
            from: Some(s("src")),
            dirs: None,
            files: Some(vec![NormalFile::FileWithOption(FileWithOption { name: s("f"), hash: Some(s("deadbeef")), autodep: None, rename: None })]),
        }])]),
    };
    let plans = Bom::manage_top_bom(&vec![root, x], "/ws/image", &same).unwrap();
    assert_eq!(plans.len(), 2);
    assert!(plans[0].files_to_check.is_empty());
    assert_eq!(plans[1].files_to_check, vec![pair("/ws/src/f", "deadbeef")]);
}

#[test]
fn manage_top_bom_refuses_a_malformed_manifest() {
    let good = Bom { includes: None, excludes: None, targets: None };
    let bad = Bom { includes: None, excludes: None, targets: Some(vec![target("t", vec![Source { from: None, dirs: None, files: None }])]) };
    assert!(matches!(Bom::manage_top_bom(&vec![good, bad], "/r", &same), Err(BomError::MissingFrom)));
}

#[test]
fn new_management_creates_only_the_root() {
    let m = BomManagement::new("/ws/image");
    assert_eq!(m.dirs_to_make, strings(&["/ws/image"]));
    assert!(m.manage().len() == 1);
}

#[test]
fn trailing_separators_are_ignored_when_splitting() {
    assert_eq!(workspace_dir("/ws/image/"), "/ws");
    assert_eq!(workspace_dir("image/"), "");
    assert_eq!(workspace_dir("///"), ".");
    assert_eq!(parent("/ws//image/"), "/ws");
    assert_eq!(parent("//image"), "/");
    assert_eq!(file_name("sub/"), "sub");
    assert_eq!(file_name("/ws/lib/a.so//"), "a.so");
}

#[test]
fn root_with_trailing_separator_plans_from_its_parent() {
    let t = target("bin", vec![Source { from: Some(s("lib")), dirs: None, files: Some(vec![NormalFile::FileName(s("a.so"))]) }]);
    let bom = Bom { includes: None, excludes: None, targets: Some(vec![t]) };
    let m = plan(&bom, "/ws/image/");
    assert_eq!(m.files_to_copy, vec![pair("/ws/lib/a.so", "/ws/image/bin/a.so")]);
}

#[test]
fn walk_keeps_the_later_of_a_repeated_inclusion() {
    let graph: &[(&str, &[&str])] = &[("R", &["A", "B", "A", "C"])];
    assert_eq!(run_walk(graph, "R"), Ok(strings(&["R", "B", "A", "C"])));
}
