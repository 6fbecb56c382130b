//! Driving the install and removal pipelines against a small in-memory
//! world that performs their actions.

use std::collections::{HashMap, HashSet};

use rustutil::errors::OpError;
use rustutil::packages::{
    add, add_batch_step, list, remove, remove_batch_step, AddBatch, RemoveBatch,
};
use rustutil::pipeline::{Action, Config, Event};

const MANIFEST: &str =
    "{\"id\":\"pkg\",\"repo\":\"URL\",\"versions\":{\"latest\":\"main\",\"1.0.0\":\"v1\"}}";

/// A pretend install root: files and directories under it, the manifests
/// the registry serves, and what the build toolchain prints.
struct World {
    files: HashMap<String, String>,
    dirs: HashSet<String>,
    manifests: HashMap<String, String>,
    build_stdout: String,
    artifact_file: Option<String>,
    sync_fail: bool,
    log: Vec<String>,
}

fn join(path: &Vec<String>) -> String {
    path.join("/")
}

impl World {
    fn new() -> World {
        World {
            files: HashMap::new(),
            dirs: HashSet::new(),
            manifests: HashMap::new(),
            build_stdout: String::new(),
            artifact_file: None,
            sync_fail: false,
            log: Vec::new(),
        }
    }

    fn with_pkg() -> World {
        let mut w = World::new();
        w.manifests.insert(String::from("pkg"), String::from(MANIFEST));
        w.build_stdout = String::from(
            "{\"reason\":\"compiler-artifact\",\"executable\":null}\nnot json\n{\"reason\":\"compiler-artifact\",\"executable\":\"/work/out/pkg-bin\"}\n",
        );
        w.artifact_file = Some(String::from("/work/out/pkg-bin"));
        w
    }

    fn perform(&mut self, a: Action) -> Event {
        match a {
            Action::Sync { url: _, dir, branch } => {
                if self.sync_fail {
                    return Event::Failed(String::from("network unreachable"));
                }
                let d = join(&dir);
                self.log.push(format!("sync {} {}", d, branch));
                self.dirs.insert(d.clone());
                if d == "index" {
                    for (id, text) in &self.manifests {
                        self.files.insert(format!("index/packages/{}.json", id), text.clone());
                    }
                }
                Event::Succeeded
            }
            Action::ReadFile { path } => {
                let p = join(&path);
                self.log.push(format!("read {}", p));
                match self.files.get(&p) {
                    Some(t) => Event::Text(t.clone()),
                    None => Event::Missing,
                }
            }
            Action::Build { dir } => {
                let d = join(&dir);
                self.log.push(format!("build {}", d));
                self.dirs.insert(format!("{}/target", d));
                if let Some(f) = &self.artifact_file {
                    self.files.insert(f.clone(), String::from("binary"));
                }
                Event::Text(self.build_stdout.clone())
            }
            Action::Clean { dir } => {
                let d = join(&dir);
                self.log.push(format!("clean {}", d));
                self.dirs.remove(&format!("{}/target", d));
                Event::Succeeded
            }
            Action::MoveArtifact { from, to } => {
                let t = join(&to);
                self.log.push(format!("place {} {}", from, t));
                match self.files.remove(&from) {
                    Some(c) => {
                        self.files.insert(t, c);
                        Event::Succeeded
                    }
                    None => Event::Failed(String::from("no such file")),
                }
            }
            Action::MoveDirReplacing { from, to } => {
                let f = join(&from);
                let t = join(&to);
                self.log.push(format!("movedir {} {}", f, t));
                if self.dirs.contains(&f) {
                    self.dirs.remove(&t);
                    self.dirs.remove(&f);
                    self.dirs.insert(t);
                }
                Event::Succeeded
            }
            Action::WriteFile { path, text } => {
                let p = join(&path);
                self.log.push(format!("write {}", p));
                self.files.insert(p, text);
                Event::Succeeded
            }
            Action::DeleteFile { path } => {
                let p = join(&path);
                self.log.push(format!("delete {}", p));
                match self.files.remove(&p) {
                    Some(_) => Event::Succeeded,
                    None => Event::Failed(String::from("no such file")),
                }
            }
            Action::DeleteDir { path } => {
                let p = join(&path);
                self.log.push(format!("deldir {}", p));
                self.dirs.remove(&p);
                Event::Succeeded
            }
        }
    }
}

fn drive_add(w: &mut World, cache: bool, entries: Vec<(String, String)>) -> AddBatch {
    let cfg = Config { cache_enabled: cache };
    let (mut b, mut act) = add(&cfg, entries);
    let mut steps = 0;
    while let Some(a) = act {
        let ev = w.perform(a);
        let r = add_batch_step(b, ev);
        b = r.0;
        act = r.1;
        steps += 1;
        assert!(steps < 1000);
    }
    b
}

fn drive_remove(w: &mut World, cache: bool, ids: Vec<String>) -> RemoveBatch {
    let cfg = Config { cache_enabled: cache };
    let (mut b, mut act) = remove(&cfg, ids);
    let mut steps = 0;
    while let Some(a) = act {
        let ev = w.perform(a);
        let r = remove_batch_step(b, ev);
        b = r.0;
        act = r.1;
        steps += 1;
        assert!(steps < 1000);
    }
    b
}

fn entry(id: &str, version: &str) -> (String, String) {
    (String::from(id), String::from(version))
}

#[test]
fn add_default_version_resolves_main() {
    let mut w = World::with_pkg();
    let b = drive_add(&mut w, false, vec![entry("pkg", "latest")]);
    assert!(b.failure.is_none());
    assert!(w.log.contains(&String::from("sync src/pkg main")));
}

#[test]
fn add_explicit_version_resolves_its_branch() {
    let mut w = World::with_pkg();
    let b = drive_add(&mut w, false, vec![entry("pkg", "1.0.0")]);
    assert!(b.failure.is_none());
    assert!(w.log.contains(&String::from("sync src/pkg v1")));
}

#[test]
fn add_unknown_version_fails_without_touching_the_index() {
    let mut w = World::with_pkg();
    let b = drive_add(&mut w, false, vec![entry("pkg", "2.0.0")]);
    match b.failure {
        Some(OpError::PackageVersionNotFound(e)) => {
            assert_eq!(e.id, "pkg");
            assert_eq!(e.version, "2.0.0");
        }
        _ => panic!("expected PackageVersionNotFound"),
    }
    assert!(!w.files.contains_key("bin/index.json"));
    assert!(w.log.iter().all(|l| !l.starts_with("write ")));
}

#[test]
fn add_missing_manifest_fails_with_package_not_found() {
    let mut w = World::new();
    let b = drive_add(&mut w, false, vec![entry("ghost", "latest")]);
    match b.failure {
        Some(OpError::PackageNotFound(e)) => assert_eq!(e.0, "ghost"),
        _ => panic!("expected PackageNotFound"),
    }
}

#[test]
fn add_empty_versions_fails_with_package_no_versions() {
    let mut w = World::new();
    w.manifests.insert(
        String::from("pkg"),
        String::from("{\"id\":\"pkg\",\"repo\":\"URL\",\"versions\":{}}"),
    );
    let b = drive_add(&mut w, false, vec![entry("pkg", "latest")]);
    match b.failure {
        Some(OpError::PackageNoVersions(e)) => assert_eq!(e.0, "pkg"),
        _ => panic!("expected PackageNoVersions"),
    }
}

#[test]
fn add_sync_failure_is_a_registry_sync_failure() {
    let mut w = World::with_pkg();
    w.sync_fail = true;
    let b = drive_add(&mut w, false, vec![entry("pkg", "latest")]);
    assert!(matches!(b.failure, Some(OpError::RegistrySyncFailure(_))));
}

#[test]
fn add_without_artifact_fails_with_artifact_not_found() {
    let mut w = World::with_pkg();
    w.build_stdout = String::from("{\"reason\":\"build-finished\"}\n");
    w.artifact_file = None;
    let b = drive_add(&mut w, false, vec![entry("pkg", "latest")]);
    assert!(matches!(b.failure, Some(OpError::ArtifactNotFound)));
}

#[test]
fn add_records_the_binary_in_the_index() {
    let mut w = World::with_pkg();
    let b = drive_add(&mut w, false, vec![entry("pkg", "latest")]);
    assert!(b.failure.is_none());
    assert!(w.files.contains_key("bin/pkg"));
    assert_eq!(w.files.get("bin/index.json").unwrap(), "{\"pkg\":\"pkg\"}");
}

#[test]
fn installed_name_keeps_the_artifact_suffix() {
    let mut w = World::with_pkg();
    w.build_stdout = String::from(
        "{\"reason\":\"compiler-artifact\",\"executable\":\"/work/out/tool.exe\"}\n",
    );
    w.artifact_file = Some(String::from("/work/out/tool.exe"));
    let b = drive_add(&mut w, false, vec![entry("pkg", "latest")]);
    assert!(b.failure.is_none());
    assert!(w.files.contains_key("bin/pkg.exe"));
    assert_eq!(w.files.get("bin/index.json").unwrap(), "{\"pkg\":\"pkg.exe\"}");
}

#[test]
fn add_then_remove_leaves_nothing() {
    let mut w = World::with_pkg();
    let b = drive_add(&mut w, false, vec![entry("pkg", "latest")]);
    assert!(b.failure.is_none());

    let rb = drive_remove(&mut w, false, vec![String::from("pkg")]);
    assert!(rb.failure.is_none());
    assert!(!w.files.contains_key("bin/pkg"));
    assert!(!w.dirs.contains("src/pkg"));
    assert_eq!(w.files.get("bin/index.json").unwrap(), "{}");

    let rb2 = drive_remove(&mut w, false, vec![String::from("pkg")]);
    match rb2.failure {
        Some(OpError::PackageNotFound(e)) => assert_eq!(e.0, "pkg"),
        _ => panic!("expected PackageNotFound on the second removal"),
    }
}

#[test]
fn remove_without_index_file_fails_with_no_binary_index() {
    let mut w = World::new();
    let rb = drive_remove(&mut w, false, vec![String::from("pkg")]);
    assert!(matches!(rb.failure, Some(OpError::NoIndex(_))));
}

#[test]
fn remove_with_corrupt_index_fails_rather_than_assuming_empty() {
    let mut w = World::new();
    w.files.insert(String::from("bin/index.json"), String::from("not json at all"));
    let rb = drive_remove(&mut w, false, vec![String::from("pkg")]);
    assert!(matches!(rb.failure, Some(OpError::FilesystemFailure(_))));
}

#[test]
fn list_before_any_add_fails_with_no_binary_index() {
    assert!(matches!(list(None), Err(OpError::NoIndex(_))));
}

#[test]
fn list_after_one_add_returns_exactly_that_identifier() {
    let mut w = World::with_pkg();
    let b = drive_add(&mut w, false, vec![entry("pkg", "latest")]);
    assert!(b.failure.is_none());
    let ids = list(w.files.get("bin/index.json").map(|s| s.as_str())).unwrap();
    assert_eq!(ids, vec![String::from("pkg")]);
}

#[test]
fn cache_round_trip_reuses_and_then_removes_the_cache_entry() {
    let mut w = World::with_pkg();

    let b1 = drive_add(&mut w, true, vec![entry("pkg", "latest")]);
    assert!(b1.failure.is_none());
    assert!(w.dirs.contains("targets/pkg"));

    let b2 = drive_add(&mut w, true, vec![entry("pkg", "latest")]);
    assert!(b2.failure.is_none());
    // The second build was offered the first build's output directory
    // before replacing it.
    assert!(w.log.contains(&String::from("movedir targets/pkg src/pkg/target")));

    let rb = drive_remove(&mut w, true, vec![String::from("pkg")]);
    assert!(rb.failure.is_none());
    assert!(!w.dirs.contains("targets/pkg"));
    assert!(!w.files.contains_key("bin/pkg"));
    assert_eq!(w.files.get("bin/index.json").unwrap(), "{}");
}

#[test]
fn batch_stops_at_the_first_failure_and_leaves_the_rest_untouched() {
    let mut w = World::with_pkg();
    w.manifests.remove("pkg");
    w.manifests.insert(String::from("b"), String::from(MANIFEST));
    let b = drive_add(&mut w, false, vec![entry("a", "latest"), entry("b", "latest")]);
    match b.failure {
        Some(OpError::PackageNotFound(e)) => assert_eq!(e.0, "a"),
        _ => panic!("expected the first entry's failure"),
    }
    assert_eq!(b.queue.len(), 1);
    assert_eq!(b.queue[0].0, "b");
    assert!(!w.dirs.contains("src/b"));
    assert!(!w.files.contains_key("bin/index.json"));
}

#[test]
fn corrupt_index_stops_an_install_rather_than_being_replaced() {
    let mut w = World::with_pkg();
    w.files.insert(String::from("bin/index.json"), String::from("{broken"));
    let b = drive_add(&mut w, false, vec![entry("pkg", "latest")]);
    assert!(matches!(b.failure, Some(OpError::FilesystemFailure(_))));
    assert_eq!(w.files.get("bin/index.json").unwrap(), "{broken");
}

#[test]
fn reinstalling_overwrites_the_record_in_place() {
    let mut w = World::with_pkg();
    let b1 = drive_add(&mut w, false, vec![entry("pkg", "latest")]);
    assert!(b1.failure.is_none());
    w.build_stdout = String::from(
        "{\"reason\":\"compiler-artifact\",\"executable\":\"/work/out/tool.exe\"}\n",
    );
    w.artifact_file = Some(String::from("/work/out/tool.exe"));
    let b2 = drive_add(&mut w, false, vec![entry("pkg", "1.0.0")]);
    assert!(b2.failure.is_none());
    assert_eq!(w.files.get("bin/index.json").unwrap(), "{\"pkg\":\"pkg.exe\"}");
}
