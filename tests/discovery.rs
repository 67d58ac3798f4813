use sessionizer::config::Config;
use sessionizer::discovery::{DirEntry, Discovery};

fn s(x: &str) -> String {
    x.to_string()
}

fn dir(p: &str) -> DirEntry {
    DirEntry { path: s(p), is_dir: true }
}

fn file(p: &str) -> DirEntry {
    DirEntry { path: s(p), is_dir: false }
}

fn strings(v: &[&str]) -> Vec<String> {
    v.iter().map(|x| x.to_string()).collect()
}

#[test]
fn scan_finds_marked_children_once() {
    let (mut d, plan) = Discovery::new("/", &strings(&["/work"]), &vec![], &strings(&[".git"]));
    assert_eq!(plan.scans, strings(&["/host/work"]));
    assert!(plan.publish.is_none());

    let level1 = vec![
        dir("/host/work/proj-a"),
        dir("/host/work/proj-b"),
        dir("/host/work/.cache"),
        file("/host/work/notes.txt"),
    ];
    let plan = d.process_filesystem_update(&level1);
    assert_eq!(plan.scans, strings(&["/host/work/proj-a", "/host/work/proj-b"]));
    assert!(plan.publish.is_none());
    assert_eq!(*d.pending_dirs(), strings(&["/host/work/proj-a", "/host/work/proj-b"]));

    let level2_a = vec![dir("/host/work/proj-a/.git"), dir("/host/work/proj-a/src")];
    let plan = d.process_filesystem_update(&level2_a);
    assert!(plan.scans.is_empty());
    assert_eq!(plan.publish, Some(strings(&["/work/proj-a"])));

    let level2_b = vec![file("/host/work/proj-b/README.md")];
    let plan = d.process_filesystem_update(&level2_b);
    assert!(plan.publish.is_none());
    assert_eq!(*d.valid_dirs(), strings(&["/work/proj-a"]));
    assert!(d.pending_dirs().is_empty());

    let plan = d.process_filesystem_update(&level2_a);
    assert!(plan.publish.is_none());
    assert_eq!(*d.valid_dirs(), strings(&["/work/proj-a"]));
}

#[test]
fn paths_under_the_mount_are_re_rooted_at_cwd() {
    let (mut d, plan) = Discovery::new(
        "/home/u",
        &strings(&["/home/u/code", "/elsewhere"]),
        &vec![],
        &strings(&[".git", "Cargo.toml"]),
    );
    assert_eq!(plan.scans, strings(&["/host/code"]));
    d.process_filesystem_update(&vec![dir("/host/code/x"), dir("/host/code/y")]);
    let plan = d.process_filesystem_update(&vec![
        file("/host/code/y/Cargo.toml"),
        file("/host/code/x/.git"),
    ]);
    assert_eq!(plan.publish, Some(strings(&["/home/u/code/y", "/home/u/code/x"])));
}

#[test]
fn direct_dirs_are_published_at_load_and_kept() {
    let (mut d, plan) = Discovery::new(
        "/",
        &strings(&["/work"]),
        &strings(&["/opt/a", "/opt/b", "/opt/a"]),
        &strings(&[".git"]),
    );
    assert_eq!(plan.publish, Some(strings(&["/opt/a", "/opt/b"])));
    d.process_filesystem_update(&vec![dir("/host/work/p")]);
    let plan = d.process_filesystem_update(&vec![dir("/host/work/p/.git")]);
    assert_eq!(plan.publish, Some(strings(&["/opt/a", "/opt/b", "/work/p"])));
}

#[test]
fn listing_before_request_is_ignored_and_children_only_count() {
    let (mut d, _) = Discovery::new("/", &strings(&["/work"]), &vec![], &strings(&[".git"]));
    // a marker for a directory nobody asked about yet
    let plan = d.process_filesystem_update(&vec![dir("/host/work/p/.git")]);
    assert!(plan.publish.is_none());
    // a grandchild of the root is no candidate
    let plan = d.process_filesystem_update(&vec![dir("/host/work/p/q")]);
    assert!(plan.scans.is_empty());
    // a batch holding a candidate and its listing settles it at once
    let plan = d.process_filesystem_update(&vec![dir("/host/work/p"), file("/host/work/p/.git")]);
    assert_eq!(plan.scans, strings(&["/host/work/p"]));
    assert_eq!(plan.publish, Some(strings(&["/work/p"])));
    // a settled directory is never asked for again
    let plan = d.process_filesystem_update(&vec![dir("/host/work/p")]);
    assert!(plan.scans.is_empty());
    assert!(d.pending_dirs().is_empty());
}

#[test]
fn repeated_candidate_in_batch_is_scanned_once() {
    let (mut d, _) = Discovery::new("/", &strings(&["/work"]), &vec![], &strings(&[".git"]));
    let plan = d.process_filesystem_update(&vec![dir("/host/work/p"), dir("/host/work/p")]);
    assert_eq!(plan.scans, strings(&["/host/work/p"]));
    let plan = d.process_filesystem_update(&vec![dir("/host/work/p")]);
    assert!(plan.scans.is_empty());
}

#[test]
fn hidden_dirs_are_skipped_but_dot_config_is_not() {
    let (mut d, _) = Discovery::new("/", &strings(&["/home"]), &vec![], &strings(&[".git"]));
    let plan = d.process_filesystem_update(&vec![dir("/host/home/.config"), dir("/host/home/.local")]);
    assert_eq!(plan.scans, strings(&["/host/home/.config"]));
}

#[test]
fn default_config_scans_the_mount_point() {
    let c = Config::default();
    let (d, plan) = Discovery::new("/host", &c.root_dirs, &c.dirs, &c.root_files);
    assert_eq!(plan.scans, strings(&["/host"]));
    assert!(d.valid_dirs().is_empty());
}

#[test]
fn listings_in_any_order_give_the_same_projects() {
    let (mut d, _) = Discovery::new("/", &strings(&["/w", "/v"]), &vec![], &strings(&[".git"]));
    assert_eq!(*d.scan_roots(), strings(&["/host/w", "/host/v"]));
    d.process_filesystem_update(&vec![dir("/host/v/b")]);
    d.process_filesystem_update(&vec![dir("/host/w/a"), dir("/host/w/c")]);
    d.process_filesystem_update(&vec![file("/host/w/c/.git")]);
    d.process_filesystem_update(&vec![file("/host/v/b/.git"), file("/host/w/a/x")]);
    d.process_filesystem_update(&vec![file("/host/v/b/.git")]);
    assert_eq!(*d.valid_dirs(), strings(&["/w/c", "/v/b"]));
    assert!(d.pending_dirs().is_empty());
}

#[test]
fn two_listings_commute_as_sets() {
    let run = |first: Vec<DirEntry>, second: Vec<DirEntry>| {
        let (mut d, _) = Discovery::new("/", &strings(&["/w"]), &vec![], &strings(&[".git"]));
        d.process_filesystem_update(&vec![dir("/host/w/a"), dir("/host/w/b"), dir("/host/w/c")]);
        d.process_filesystem_update(&first);
        d.process_filesystem_update(&second);
        let mut valid = d.valid_dirs().clone();
        valid.sort();
        let mut pending = d.pending_dirs().clone();
        pending.sort();
        (d.valid_dirs().clone(), valid, pending)
    };
    let la = || vec![file("/host/w/a/.git")];
    let lb = || vec![dir("/host/w/b/.git"), file("/host/w/b/x")];
    let (order_ab, set_ab, pend_ab) = run(la(), lb());
    let (order_ba, set_ba, pend_ba) = run(lb(), la());
    assert_eq!(order_ab, strings(&["/w/a", "/w/b"]));
    assert_eq!(order_ba, strings(&["/w/b", "/w/a"]));
    assert_eq!(set_ab, set_ba);
    assert_eq!(pend_ab, strings(&["/host/w/c"]));
    assert_eq!(pend_ab, pend_ba);
}
