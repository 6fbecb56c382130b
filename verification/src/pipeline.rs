//! The install and removal pipelines, as machines that decide and a caller
//! that performs.
//!
//! Every decision — which file to read, which branch to sync, what the
//! next index text is, which failure to report — is made here. What cannot
//! be decided, only done (network, disk, the build toolchain), is named by
//! an [`Action`]; the caller performs the action against the install root
//! and hands the outcome back as an [`Event`]. One step consumes one event
//! and asks for at most one action; a run that reaches `Installed`,
//! `Removed` or `Failed` asks for nothing more.

use vstd::prelude::*;

verus! {

use crate::errors::{NoBinaryIndex, OpError, PackageNoVersionsError, PackageNotFoundError,
    PackageVersionNotFoundError};
use crate::experiments::{Experiment, has_experiment};
use crate::json;
use crate::table::StrTable;
use crate::text::{from_chars, to_chars};

broadcast use vstd::string::group_string_axioms;

/// What one invocation was configured with.
pub struct Config {
    /// Whether each package's build-output directory is kept between
    /// installs.
    pub cache_enabled: bool,
}

impl Config {
    pub fn new(experiments: &Option<Vec<Experiment>>) -> (r: Config)
        ensures
            r.cache_enabled == (*experiments matches Some(v) && v@.contains(
                Experiment::TargetCache,
            )),
    {
        Config { cache_enabled: has_experiment(experiments, &Experiment::TargetCache) }
    }
}

/// One thing the caller is asked to do. Every path is a list of components
/// under the install root, except the artifact's source path, which the
/// build reported as it stands.
pub enum Action {
    /// Clone `url` at the directory, checked out at `branch`, or, when the
    /// directory exists, fetch `branch` from the remote named `origin` and
    /// hard-reset to its tip.
    Sync { url: String, dir: Vec<String>, branch: String },
    /// Read the whole file: `Text` with its contents, or `Missing` when
    /// there is no such file.
    ReadFile { path: Vec<String> },
    /// Run the build toolchain in the directory, optimized, structured
    /// line-delimited events on the primary stream: `Text` with that
    /// stream; the secondary stream goes to the operator unread.
    Build { dir: Vec<String> },
    /// Have the toolchain reclaim the build output in the directory.
    Clean { dir: Vec<String> },
    /// Move the file at `from` — a path the build reported — to the given
    /// place: one rename where source and destination share a filesystem,
    /// a copy then a delete otherwise.
    MoveArtifact { from: String, to: Vec<String> },
    /// If `from` exists: delete `to` if it exists, then rename `from` to
    /// `to`. Nothing otherwise.
    MoveDirReplacing { from: Vec<String>, to: Vec<String> },
    /// Write the text as the file's whole contents, creating the file and
    /// its directory if need be.
    WriteFile { path: Vec<String>, text: String },
    /// Delete the file.
    DeleteFile { path: Vec<String> },
    /// Delete the directory and what it holds, if it exists.
    DeleteDir { path: Vec<String> },
}

/// What came of the last action.
pub enum Event {
    /// It completed.
    Succeeded,
    /// What a read or a build handed back.
    Text(String),
    /// The file to read does not exist.
    Missing,
    /// It failed; the performer's words, for the operator.
    Failed(String),
}

// ---------------------------------------------------------------------------
// The filesystem layout under the install root, and the registry's place.
// ---------------------------------------------------------------------------
pub open spec fn registry_url_view() -> Seq<char> {
    "https://github.com/rustutil/.index.git"@
}

pub open spec fn registry_branch_view() -> Seq<char> {
    "main"@
}

/// The registry mirror.
pub open spec fn registry_dir_view() -> Seq<Seq<char>> {
    seq!["index"@]
}

/// A manifest inside the mirror.
pub open spec fn manifest_path_view(id: Seq<char>) -> Seq<Seq<char>> {
    seq!["index"@, "packages"@, id + ".json"@]
}

/// A package's working copy.
pub open spec fn source_dir_view(id: Seq<char>) -> Seq<Seq<char>> {
    seq!["src"@, id]
}

/// The build-output directory inside a working copy.
pub open spec fn target_dir_view(id: Seq<char>) -> Seq<Seq<char>> {
    seq!["src"@, id, "target"@]
}

/// A package's cache entry.
pub open spec fn cache_dir_view(id: Seq<char>) -> Seq<Seq<char>> {
    seq!["targets"@, id]
}

/// An installed binary.
pub open spec fn bin_file_view(name: Seq<char>) -> Seq<Seq<char>> {
    seq!["bin"@, name]
}

/// The binary index file.
pub open spec fn index_file_view() -> Seq<Seq<char>> {
    seq!["bin"@, "index.json"@]
}

/// The fixed place the registry is mirrored from.
pub fn registry_url() -> (r: String)
    ensures
        r@ == registry_url_view(),
{
    String::from_str("https://github.com/rustutil/.index.git")
}

pub fn registry_dir() -> (r: Vec<String>)
    ensures
        r.deep_view() == registry_dir_view(),
{
    let mut v: Vec<String> = Vec::new();
    v.push(String::from_str("index"));
    proof {
        assert(v.deep_view() =~= registry_dir_view());
    }
    v
}

pub fn manifest_path(id: &str) -> (r: Vec<String>)
    ensures
        r.deep_view() == manifest_path_view(id@),
{
    let mut file = String::from_str(id);
    file.append(".json");
    let mut v: Vec<String> = Vec::new();
    v.push(String::from_str("index"));
    v.push(String::from_str("packages"));
    v.push(file);
    proof {
        assert(v.deep_view() =~= manifest_path_view(id@));
    }
    v
}

pub fn source_dir(id: &str) -> (r: Vec<String>)
    ensures
        r.deep_view() == source_dir_view(id@),
{
    let mut v: Vec<String> = Vec::new();
    v.push(String::from_str("src"));
    v.push(String::from_str(id));
    proof {
        assert(v.deep_view() =~= source_dir_view(id@));
    }
    v
}

pub fn target_dir(id: &str) -> (r: Vec<String>)
    ensures
        r.deep_view() == target_dir_view(id@),
{
    let mut v: Vec<String> = Vec::new();
    v.push(String::from_str("src"));
    v.push(String::from_str(id));
    v.push(String::from_str("target"));
    proof {
        assert(v.deep_view() =~= target_dir_view(id@));
    }
    v
}

pub fn cache_dir(id: &str) -> (r: Vec<String>)
    ensures
        r.deep_view() == cache_dir_view(id@),
{
    let mut v: Vec<String> = Vec::new();
    v.push(String::from_str("targets"));
    v.push(String::from_str(id));
    proof {
        assert(v.deep_view() =~= cache_dir_view(id@));
    }
    v
}

pub fn bin_file(name: String) -> (r: Vec<String>)
    ensures
        r.deep_view() == bin_file_view(name@),
{
    let ghost nv = name@;
    let mut v: Vec<String> = Vec::new();
    v.push(String::from_str("bin"));
    v.push(name);
    proof {
        assert(v.deep_view() =~= bin_file_view(nv));
    }
    v
}

pub fn index_file() -> (r: Vec<String>)
    ensures
        r.deep_view() == index_file_view(),
{
    let mut v: Vec<String> = Vec::new();
    v.push(String::from_str("bin"));
    v.push(String::from_str("index.json"));
    proof {
        assert(v.deep_view() =~= index_file_view());
    }
    v
}

// ---------------------------------------------------------------------------
// The name an installed binary carries: the identifier, with the
// artifact's platform suffix preserved.
// ---------------------------------------------------------------------------
/// The position of the last path separator, or a negative value.
pub open spec fn last_sep(s: Seq<char>) -> int
    decreases s.len(),
{
    if s.len() == 0 {
        -1
    } else if s.last() == '/' || s.last() == '\\' {
        s.len() - 1
    } else {
        last_sep(s.drop_last())
    }
}

pub proof fn lemma_last_sep_bounds(s: Seq<char>)
    ensures
        -1 <= last_sep(s) < s.len(),
        last_sep(s) >= 0 ==> (s[last_sep(s)] == '/' || s[last_sep(s)] == '\\'),
        forall|j: int| last_sep(s) < j < s.len() ==> (s[j] != '/' && s[j] != '\\'),
    decreases s.len(),
{
    if s.len() > 0 && !(s.last() == '/' || s.last() == '\\') {
        lemma_last_sep_bounds(s.drop_last());
        assert(forall|j: int| 0 <= j < s.len() - 1 ==> s.drop_last()[j] == s[j]);
    }
}

/// The artifact's file name.
pub open spec fn base_name(p: Seq<char>) -> Seq<char> {
    p.skip(last_sep(p) + 1)
}

/// The extension the file name carries, dot included; nothing when it has
/// none, or only one that opens it.
pub open spec fn ext_suffix(p: Seq<char>) -> Seq<char> {
    if crate::index::last_dot(base_name(p)) <= 0 {
        Seq::empty()
    } else {
        base_name(p).skip(crate::index::last_dot(base_name(p)))
    }
}

/// What the relocated binary is called: the identifier, with the
/// artifact's suffix kept.
pub open spec fn installed_name_view(id: Seq<char>, artifact: Seq<char>) -> Seq<char> {
    id + ext_suffix(artifact)
}

fn installed_name(id: &str, artifact: &str) -> (r: String)
    ensures
        r@ == installed_name_view(id@, artifact@),
{
    let s = to_chars(artifact);
    let m = s.len();
    proof {
        lemma_last_sep_bounds(s@);
    }
    // The last separator: its position plus one, or zero when none.
    let mut sep_plus: usize = 0;
    let mut q: usize = 0;
    while q < m
        invariant
            q <= m,
            m == s@.len(),
            sep_plus <= q,
            sep_plus > 0 ==> (s@[sep_plus - 1] == '/' || s@[sep_plus - 1] == '\\'),
            forall|j: int| sep_plus <= j < q ==> (s@[j] != '/' && s@[j] != '\\'),
        decreases m - q,
    {
        if s[q] == '/' || s[q] == '\\' {
            sep_plus = q + 1;
        }
        q += 1;
    }
    proof {
        let d = last_sep(s@);
        if sep_plus == 0 {
            assert(d == -1);
        } else {
            assert(d < sep_plus ==> d == sep_plus - 1);
            assert(d >= sep_plus ==> false);
        }
        assert(last_sep(s@) == sep_plus as int - 1);
    }
    let ghost b = base_name(s@);
    proof {
        assert(b =~= s@.skip(sep_plus as int));
        crate::index::lemma_last_dot_bounds(b);
    }
    // The last dot after the separator: its position plus one, or zero.
    let mut dot_plus: usize = 0;
    let mut p: usize = sep_plus;
    while p < m
        invariant
            sep_plus <= p <= m,
            m == s@.len(),
            dot_plus == 0 || sep_plus < dot_plus,
            dot_plus <= p,
            dot_plus > 0 ==> s@[dot_plus - 1] == '.',
            dot_plus == 0 ==> forall|j: int| sep_plus <= j < p ==> s@[j] != '.',
            dot_plus > 0 ==> forall|j: int| dot_plus <= j < p ==> s@[j] != '.',
        decreases m - p,
    {
        if s[p] == '.' {
            dot_plus = p + 1;
        }
        p += 1;
    }
    proof {
        let d = crate::index::last_dot(b);
        assert(forall|j: int| 0 <= j < b.len() ==> b[j] == s@[sep_plus + j]);
        if dot_plus == 0 {
            assert(d >= 0 ==> s@[sep_plus + d] == '.');
            assert(d == -1);
        } else {
            let c = dot_plus as int - 1 - sep_plus as int;
            assert(b[c] == '.');
            assert(d < c ==> b[c] != '.');
            assert(d > c ==> s@[sep_plus + d] == '.' && dot_plus <= sep_plus + d < m);
            assert(d == c);
        }
    }
    let mut out = String::from_str(id);
    if dot_plus > 0 && dot_plus - 1 > sep_plus {
        let cut = dot_plus - 1;
        let mut suffix: Vec<char> = Vec::new();
        let mut w = cut;
        while w < m
            invariant
                cut <= w <= m,
                m == s@.len(),
                suffix@ =~= s@.subrange(cut as int, w as int),
            decreases m - w,
        {
            suffix.push(s[w]);
            proof {
                assert(suffix@ =~= s@.subrange(cut as int, w as int + 1));
            }
            w += 1;
        }
        proof {
            assert(suffix@ =~= ext_suffix(s@));
        }
        let sx = from_chars(suffix.as_slice());
        out.append(sx.as_str());
    } else {
        proof {
            assert(ext_suffix(s@) =~= Seq::<char>::empty());
            assert(id@ + ext_suffix(s@) =~= id@);
        }
    }
    out
}

// ---------------------------------------------------------------------------
// How the binary index changes.
// ---------------------------------------------------------------------------
/// `ps2` is `ps` with `k` bound to `v`: replaced in place, or appended.
pub open spec fn upserted(
    ps: Seq<(Seq<char>, Seq<char>)>,
    k: Seq<char>,
    v: Seq<char>,
    ps2: Seq<(Seq<char>, Seq<char>)>,
) -> bool {
    if exists|i: int| 0 <= i < ps.len() && #[trigger] ps[i].0 == k {
        exists|i: int|
            0 <= i < ps.len() && #[trigger] ps[i].0 == k && ps2 == ps.update(i, (k, v))
    } else {
        ps2 == ps.push((k, v))
    }
}

/// `ps2` is `ps` with the pair under `k` dropped.
pub open spec fn removed_entry(
    ps: Seq<(Seq<char>, Seq<char>)>,
    k: Seq<char>,
    ps2: Seq<(Seq<char>, Seq<char>)>,
) -> bool {
    exists|i: int| 0 <= i < ps.len() && #[trigger] ps[i].0 == k && ps2 == ps.remove(i)
}

/// What the install pipeline asks to be written: a text that decodes back
/// to the prior mapping with the identifier bound to the binary's name.
pub proof fn lemma_written_index_decodes(
    ps: Seq<(Seq<char>, Seq<char>)>,
    k: Seq<char>,
    v: Seq<char>,
    ps2: Seq<(Seq<char>, Seq<char>)>,
)
    requires
        crate::table::distinct_keys(ps),
        upserted(ps, k, v, ps2),
    ensures
        crate::table::distinct_keys(ps2),
        json::str_object_text(json::object_text(ps2)) == Some(ps2),
        crate::table::pairs_map(ps2) == crate::table::pairs_map(ps).insert(k, v),
{
    if exists|i: int| 0 <= i < ps.len() && #[trigger] ps[i].0 == k {
        let i = choose|i: int| 0 <= i < ps.len() && #[trigger] ps[i].0 == k && ps2 == ps.update(
            i,
            (k, v),
        );
        crate::table::lemma_pairs_map_update(ps, i, v);
    } else {
        assert(ps2.drop_last() =~= ps);
        assert(forall|j: int| 0 <= j < ps.len() ==> ps2[j] == ps[j]);
        assert(ps2.last() == (k, v));
        assert(crate::table::distinct_keys(ps2));
    }
    json::lemma_encoded_object_decodes(ps2);
}

/// What the removal pipeline asks to be written: a text that decodes back
/// to the prior mapping with the identifier's binding gone.
pub proof fn lemma_rewritten_index_decodes(
    ps: Seq<(Seq<char>, Seq<char>)>,
    k: Seq<char>,
    ps2: Seq<(Seq<char>, Seq<char>)>,
)
    requires
        crate::table::distinct_keys(ps),
        removed_entry(ps, k, ps2),
    ensures
        crate::table::distinct_keys(ps2),
        json::str_object_text(json::object_text(ps2)) == Some(ps2),
        crate::table::pairs_map(ps2) == crate::table::pairs_map(ps).remove(k),
{
    let i = choose|i: int| 0 <= i < ps.len() && #[trigger] ps[i].0 == k && ps2 == ps.remove(i);
    crate::table::lemma_pairs_map_remove(ps, i);
    json::lemma_encoded_object_decodes(ps2);
}

// ---------------------------------------------------------------------------
// One package's install.
// ---------------------------------------------------------------------------
/// Where an install stands; each waiting phase names the action whose
/// outcome it awaits.
pub enum AddPhase {
    /// The registry mirror's sync.
    RefreshingRegistry,
    /// The manifest file's contents.
    ReadingManifest,
    /// The working copy's sync.
    SyncingSource,
    /// The cache entry's move into the working copy.
    RestoringCache,
    /// The build output.
    Building,
    /// The artifact's move into the binary directory.
    PlacingBinary { name: String },
    /// The build-output directory's move out to the cache entry.
    SavingCache { name: String },
    /// The toolchain's clean.
    Cleaning { name: String },
    /// The binary index file's contents.
    ReadingIndex { name: String },
    /// The index write.
    WritingIndex { name: String },
    /// Done: the index records the binary under `name`.
    Installed { name: String },
    /// Given up; nothing more is asked for.
    Failed { error: OpError },
}

/// One package's install in flight.
pub struct AddRun {
    pub id: String,
    pub version: String,
    pub cache: bool,
    pub phase: AddPhase,
}

/// How one step of an install answers an event: the whole transition
/// relation, one case per phase and event.
pub open spec fn add_step_rel(pre: AddRun, ev: Event, post: AddRun, act: Option<Action>) -> bool {
    &&& post.id@ == pre.id@
    &&& post.version@ == pre.version@
    &&& post.cache == pre.cache
    &&& match pre.phase {
        AddPhase::Installed { .. } => post == pre && act is None,
        AddPhase::Failed { .. } => post == pre && act is None,
        AddPhase::RefreshingRegistry => match ev {
            Event::Succeeded => {
                &&& post.phase is ReadingManifest
                &&& act matches Some(Action::ReadFile { path }) && path.deep_view()
                    == manifest_path_view(pre.id@)
            },
            Event::Failed(m) => post.phase matches AddPhase::Failed { error } && (
            error matches OpError::RegistrySyncFailure(mm) && mm@ == m@) && act is None,
            _ => protocol_failed(post) && act is None,
        },
        AddPhase::ReadingManifest => match ev {
            Event::Text(t) => match json::manifest_fields(t@) {
                Some(f) => {
                    if f.2.len() == 0 {
                        post.phase matches AddPhase::Failed { error } && (
                        error matches OpError::PackageNoVersions(pe) && pe.0@ == pre.id@) && act
                            is None
                    } else if !crate::table::pairs_map(f.2).contains_key(pre.version@) {
                        post.phase matches AddPhase::Failed { error } && (
                        error matches OpError::PackageVersionNotFound(pe) && pe.id@ == pre.id@
                            && pe.version@ == pre.version@) && act is None
                    } else {
                        &&& post.phase is SyncingSource
                        &&& act matches Some(Action::Sync { url, dir, branch }) && url@ == f.1
                            && dir.deep_view() == source_dir_view(pre.id@) && branch@
                            == crate::table::pairs_map(f.2)[pre.version@]
                    }
                },
                None => post.phase matches AddPhase::Failed { error } && error
                    is FilesystemFailure && act is None,
            },
            Event::Missing => post.phase matches AddPhase::Failed { error } && (
            error matches OpError::PackageNotFound(pe) && pe.0@ == pre.id@) && act is None,
            Event::Failed(m) => post.phase matches AddPhase::Failed { error } && (
            error matches OpError::FilesystemFailure(mm) && mm@ == m@) && act is None,
            _ => protocol_failed(post) && act is None,
        },
        AddPhase::SyncingSource => match ev {
            Event::Succeeded => {
                if pre.cache {
                    &&& post.phase is RestoringCache
                    &&& act matches Some(Action::MoveDirReplacing { from, to }) && from.deep_view()
                        == cache_dir_view(pre.id@) && to.deep_view() == target_dir_view(pre.id@)
                } else {
                    &&& post.phase is Building
                    &&& act matches Some(Action::Build { dir }) && dir.deep_view()
                        == source_dir_view(pre.id@)
                }
            },
            Event::Failed(m) => post.phase matches AddPhase::Failed { error } && (
            error matches OpError::RegistrySyncFailure(mm) && mm@ == m@) && act is None,
            _ => protocol_failed(post) && act is None,
        },
        AddPhase::RestoringCache => match ev {
            Event::Succeeded => {
                &&& post.phase is Building
                &&& act matches Some(Action::Build { dir }) && dir.deep_view() == source_dir_view(
                    pre.id@,
                )
            },
            Event::Failed(m) => post.phase matches AddPhase::Failed { error } && (
            error matches OpError::FilesystemFailure(mm) && mm@ == m@) && act is None,
            _ => protocol_failed(post) && act is None,
        },
        AddPhase::Building => match ev {
            Event::Text(t) => match crate::events::located(crate::events::lines_from(t@, 0)) {
                Some(p) => {
                    &&& post.phase matches AddPhase::PlacingBinary { name } && name@
                        == installed_name_view(pre.id@, p)
                    &&& act matches Some(Action::MoveArtifact { from, to }) && from@ == p
                        && to.deep_view() == bin_file_view(installed_name_view(pre.id@, p))
                },
                None => post.phase matches AddPhase::Failed { error } && error
                    is ArtifactNotFound && act is None,
            },
            Event::Failed(m) => post.phase matches AddPhase::Failed { error } && (
            error matches OpError::FilesystemFailure(mm) && mm@ == m@) && act is None,
            _ => protocol_failed(post) && act is None,
        },
        AddPhase::PlacingBinary { name } => match ev {
            Event::Succeeded => {
                if pre.cache {
                    &&& post.phase matches AddPhase::SavingCache { name: n } && n@ == name@
                    &&& act matches Some(Action::MoveDirReplacing { from, to }) && from.deep_view()
                        == target_dir_view(pre.id@) && to.deep_view() == cache_dir_view(pre.id@)
                } else {
                    &&& post.phase matches AddPhase::Cleaning { name: n } && n@ == name@
                    &&& act matches Some(Action::Clean { dir }) && dir.deep_view()
                        == source_dir_view(pre.id@)
                }
            },
            Event::Failed(m) => post.phase matches AddPhase::Failed { error } && (
            error matches OpError::FilesystemFailure(mm) && mm@ == m@) && act is None,
            _ => protocol_failed(post) && act is None,
        },
        AddPhase::SavingCache { name } => match ev {
            Event::Succeeded => {
                &&& post.phase matches AddPhase::ReadingIndex { name: n } && n@ == name@
                &&& act matches Some(Action::ReadFile { path }) && path.deep_view()
                    == index_file_view()
            },
            Event::Failed(m) => post.phase matches AddPhase::Failed { error } && (
            error matches OpError::FilesystemFailure(mm) && mm@ == m@) && act is None,
            _ => protocol_failed(post) && act is None,
        },
        AddPhase::Cleaning { name } => match ev {
            Event::Succeeded => {
                &&& post.phase matches AddPhase::ReadingIndex { name: n } && n@ == name@
                &&& act matches Some(Action::ReadFile { path }) && path.deep_view()
                    == index_file_view()
            },
            Event::Failed(m) => post.phase matches AddPhase::Failed { error } && (
            error matches OpError::FilesystemFailure(mm) && mm@ == m@) && act is None,
            _ => protocol_failed(post) && act is None,
        },
        AddPhase::ReadingIndex { name } => match ev {
            Event::Missing => writes_index(pre, post, act, Seq::empty(), name@),
            Event::Text(t) => match json::str_object_text(t@) {
                Some(ps) => writes_index(pre, post, act, ps, name@),
                None => post.phase matches AddPhase::Failed { error } && error
                    is FilesystemFailure && act is None,
            },
            Event::Failed(m) => post.phase matches AddPhase::Failed { error } && (
            error matches OpError::FilesystemFailure(mm) && mm@ == m@) && act is None,
            _ => protocol_failed(post) && act is None,
        },
        AddPhase::WritingIndex { name } => match ev {
            Event::Succeeded => post.phase matches AddPhase::Installed { name: n } && n@ == name@
                && act is None,
            Event::Failed(m) => post.phase matches AddPhase::Failed { error } && (
            error matches OpError::FilesystemFailure(mm) && mm@ == m@) && act is None,
            _ => protocol_failed(post) && act is None,
        },
    }
}

/// An event of a kind the pending action cannot produce.
pub open spec fn protocol_failed(post: AddRun) -> bool {
    post.phase matches AddPhase::Failed { error } && error is FilesystemFailure
}

/// The step that records the install: the index gains the identifier,
/// bound to the binary's name, and the whole index is written back.
pub open spec fn writes_index(
    pre: AddRun,
    post: AddRun,
    act: Option<Action>,
    ps: Seq<(Seq<char>, Seq<char>)>,
    name: Seq<char>,
) -> bool {
    &&& post.phase matches AddPhase::WritingIndex { name: n } && n@ == name
    &&& act matches Some(Action::WriteFile { path, text }) && path.deep_view() == index_file_view()
        && exists|ps2: Seq<(Seq<char>, Seq<char>)>|
        #[trigger] upserted(ps, pre.id@, name, ps2) && text@ == json::object_text(ps2)
}

/// Begins one package's install: the first thing asked for is the registry
/// mirror's sync.
pub fn add_start(cfg: &Config, id: String, version: String) -> (r: (AddRun, Action))
    ensures
        r.0.id@ == id@ && r.0.version@ == version@ && r.0.cache == cfg.cache_enabled,
        r.0.phase is RefreshingRegistry,
        r.1 matches Action::Sync { url, dir, branch } && url@ == registry_url_view()
            && dir.deep_view() == registry_dir_view() && branch@ == registry_branch_view(),
{
    let act = Action::Sync {
        url: registry_url(),
        dir: registry_dir(),
        branch: String::from_str("main"),
    };
    (AddRun { id, version, cache: cfg.cache_enabled, phase: AddPhase::RefreshingRegistry }, act)
}

fn protocol_error() -> (r: OpError)
    ensures
        r is FilesystemFailure,
{
    OpError::FilesystemFailure(String::from_str("the report does not answer the pending action"))
}

/// One step of an install: consumes the last action's outcome, decides,
/// and asks for the next action, if any.
pub fn add_step(run: AddRun, event: Event) -> (r: (AddRun, Option<Action>))
    ensures
        add_step_rel(run, event, r.0, r.1),
{
    let AddRun { id, version, cache, phase } = run;
    match phase {
        AddPhase::Installed { name } => (
            AddRun { id, version, cache, phase: AddPhase::Installed { name } },
            None,
        ),
        AddPhase::Failed { error } => (
            AddRun { id, version, cache, phase: AddPhase::Failed { error } },
            None,
        ),
        AddPhase::RefreshingRegistry => match event {
            Event::Succeeded => {
                let act = Action::ReadFile { path: manifest_path(id.as_str()) };
                (AddRun { id, version, cache, phase: AddPhase::ReadingManifest }, Some(act))
            },
            Event::Failed(m) => (
                AddRun {
                    id,
                    version,
                    cache,
                    phase: AddPhase::Failed { error: OpError::RegistrySyncFailure(m) },
                },
                None,
            ),
            _ => (
                AddRun { id, version, cache, phase: AddPhase::Failed { error: protocol_error() } },
                None,
            ),
        },
        AddPhase::ReadingManifest => match event {
            Event::Text(t) => {
                let chars = to_chars(t.as_str());
                match json::decode_manifest(chars.as_slice()) {
                    Some((_mid, mrepo, versions)) => {
                        if versions.len() == 0 {
                            let e = OpError::PackageNoVersions(
                                PackageNoVersionsError(id.clone()),
                            );
                            (
                                AddRun { id, version, cache, phase: AddPhase::Failed { error: e } },
                                None,
                            )
                        } else {
                            match versions.get(&version) {
                                Some(branch) => {
                                    let b = branch.clone();
                                    let act = Action::Sync {
                                        url: mrepo,
                                        dir: source_dir(id.as_str()),
                                        branch: b,
                                    };
                                    (
                                        AddRun {
                                            id,
                                            version,
                                            cache,
                                            phase: AddPhase::SyncingSource,
                                        },
                                        Some(act),
                                    )
                                },
                                None => {
                                    let e = OpError::PackageVersionNotFound(
                                        PackageVersionNotFoundError {
                                            id: id.clone(),
                                            version: version.clone(),
                                        },
                                    );
                                    (
                                        AddRun {
                                            id,
                                            version,
                                            cache,
                                            phase: AddPhase::Failed { error: e },
                                        },
                                        None,
                                    )
                                },
                            }
                        }
                    },
                    None => {
                        let e = OpError::FilesystemFailure(
                            String::from_str("the manifest could not be decoded"),
                        );
                        (AddRun { id, version, cache, phase: AddPhase::Failed { error: e } }, None)
                    },
                }
            },
            Event::Missing => {
                let e = OpError::PackageNotFound(PackageNotFoundError(id.clone()));
                (AddRun { id, version, cache, phase: AddPhase::Failed { error: e } }, None)
            },
            Event::Failed(m) => (
                AddRun {
                    id,
                    version,
                    cache,
                    phase: AddPhase::Failed { error: OpError::FilesystemFailure(m) },
                },
                None,
            ),
            _ => (
                AddRun { id, version, cache, phase: AddPhase::Failed { error: protocol_error() } },
                None,
            ),
        },
        AddPhase::SyncingSource => match event {
            Event::Succeeded => {
                if cache {
                    let act = Action::MoveDirReplacing {
                        from: cache_dir(id.as_str()),
                        to: target_dir(id.as_str()),
                    };
                    (AddRun { id, version, cache, phase: AddPhase::RestoringCache }, Some(act))
                } else {
                    let act = Action::Build { dir: source_dir(id.as_str()) };
                    (AddRun { id, version, cache, phase: AddPhase::Building }, Some(act))
                }
            },
            Event::Failed(m) => (
                AddRun {
                    id,
                    version,
                    cache,
                    phase: AddPhase::Failed { error: OpError::RegistrySyncFailure(m) },
                },
                None,
            ),
            _ => (
                AddRun { id, version, cache, phase: AddPhase::Failed { error: protocol_error() } },
                None,
            ),
        },
        AddPhase::RestoringCache => match event {
            Event::Succeeded => {
                let act = Action::Build { dir: source_dir(id.as_str()) };
                (AddRun { id, version, cache, phase: AddPhase::Building }, Some(act))
            },
            Event::Failed(m) => (
                AddRun {
                    id,
                    version,
                    cache,
                    phase: AddPhase::Failed { error: OpError::FilesystemFailure(m) },
                },
                None,
            ),
            _ => (
                AddRun { id, version, cache, phase: AddPhase::Failed { error: protocol_error() } },
                None,
            ),
        },
        AddPhase::Building => match event {
            Event::Text(t) => match crate::events::locate_artifact(t.as_str()) {
                Some(p) => {
                    let name = installed_name(id.as_str(), p.as_str());
                    let act = Action::MoveArtifact { from: p, to: bin_file(name.clone()) };
                    (
                        AddRun { id, version, cache, phase: AddPhase::PlacingBinary { name } },
                        Some(act),
                    )
                },
                None => (
                    AddRun {
                        id,
                        version,
                        cache,
                        phase: AddPhase::Failed { error: OpError::ArtifactNotFound },
                    },
                    None,
                ),
            },
            Event::Failed(m) => (
                AddRun {
                    id,
                    version,
                    cache,
                    phase: AddPhase::Failed { error: OpError::FilesystemFailure(m) },
                },
                None,
            ),
            _ => (
                AddRun { id, version, cache, phase: AddPhase::Failed { error: protocol_error() } },
                None,
            ),
        },
        AddPhase::PlacingBinary { name } => match event {
            Event::Succeeded => {
                if cache {
                    let act = Action::MoveDirReplacing {
                        from: target_dir(id.as_str()),
                        to: cache_dir(id.as_str()),
                    };
                    (
                        AddRun { id, version, cache, phase: AddPhase::SavingCache { name } },
                        Some(act),
                    )
                } else {
                    let act = Action::Clean { dir: source_dir(id.as_str()) };
                    (AddRun { id, version, cache, phase: AddPhase::Cleaning { name } }, Some(act))
                }
            },
            Event::Failed(m) => (
                AddRun {
                    id,
                    version,
                    cache,
                    phase: AddPhase::Failed { error: OpError::FilesystemFailure(m) },
                },
                None,
            ),
            _ => (
                AddRun { id, version, cache, phase: AddPhase::Failed { error: protocol_error() } },
                None,
            ),
        },
        AddPhase::SavingCache { name } => match event {
            Event::Succeeded => {
                let act = Action::ReadFile { path: index_file() };
                (AddRun { id, version, cache, phase: AddPhase::ReadingIndex { name } }, Some(act))
            },
            Event::Failed(m) => (
                AddRun {
                    id,
                    version,
                    cache,
                    phase: AddPhase::Failed { error: OpError::FilesystemFailure(m) },
                },
                None,
            ),
            _ => (
                AddRun { id, version, cache, phase: AddPhase::Failed { error: protocol_error() } },
                None,
            ),
        },
        AddPhase::Cleaning { name } => match event {
            Event::Succeeded => {
                let act = Action::ReadFile { path: index_file() };
                (AddRun { id, version, cache, phase: AddPhase::ReadingIndex { name } }, Some(act))
            },
            Event::Failed(m) => (
                AddRun {
                    id,
                    version,
                    cache,
                    phase: AddPhase::Failed { error: OpError::FilesystemFailure(m) },
                },
                None,
            ),
            _ => (
                AddRun { id, version, cache, phase: AddPhase::Failed { error: protocol_error() } },
                None,
            ),
        },
        AddPhase::ReadingIndex { name } => match event {
            Event::Missing => {
                let mut t = StrTable::new();
                let ghost t0 = t.view_pairs();
                t.insert(id.clone(), name.clone());
                proof {
                    crate::table::lemma_pairs_map_contains(t0, id@);
                    assert(upserted(t0, id@, name@, t.view_pairs()));
                }
                let text = from_chars(json::encode_str_object(&t).as_slice());
                let act = Action::WriteFile { path: index_file(), text };
                (AddRun { id, version, cache, phase: AddPhase::WritingIndex { name } }, Some(act))
            },
            Event::Text(txt) => {
                let chars = to_chars(txt.as_str());
                match json::decode_str_object(chars.as_slice()) {
                    Some(mut t) => {
                        let ghost t0 = t.view_pairs();
                        t.insert(id.clone(), name.clone());
                        proof {
                            crate::table::lemma_pairs_map_contains(t0, id@);
                            assert(upserted(t0, id@, name@, t.view_pairs()));
                        }
                        let text = from_chars(json::encode_str_object(&t).as_slice());
                        let act = Action::WriteFile { path: index_file(), text };
                        (
                            AddRun { id, version, cache, phase: AddPhase::WritingIndex { name } },
                            Some(act),
                        )
                    },
                    None => {
                        let e = OpError::FilesystemFailure(
                            String::from_str("the binary index could not be decoded"),
                        );
                        (AddRun { id, version, cache, phase: AddPhase::Failed { error: e } }, None)
                    },
                }
            },
            Event::Failed(m) => (
                AddRun {
                    id,
                    version,
                    cache,
                    phase: AddPhase::Failed { error: OpError::FilesystemFailure(m) },
                },
                None,
            ),
            _ => (
                AddRun { id, version, cache, phase: AddPhase::Failed { error: protocol_error() } },
                None,
            ),
        },
        AddPhase::WritingIndex { name } => match event {
            Event::Succeeded => (
                AddRun { id, version, cache, phase: AddPhase::Installed { name } },
                None,
            ),
            Event::Failed(m) => (
                AddRun {
                    id,
                    version,
                    cache,
                    phase: AddPhase::Failed { error: OpError::FilesystemFailure(m) },
                },
                None,
            ),
            _ => (
                AddRun { id, version, cache, phase: AddPhase::Failed { error: protocol_error() } },
                None,
            ),
        },
    }
}

// ---------------------------------------------------------------------------
// One package's removal.
// ---------------------------------------------------------------------------
/// Where a removal stands; each waiting phase names the action whose
/// outcome it awaits.
pub enum RemovePhase {
    /// The binary index file's contents.
    ReadingIndex,
    /// The index write, the entry dropped.
    WritingIndex { name: String },
    /// The binary file's delete.
    DeletingBinary,
    /// The working copy's delete.
    DeletingSource,
    /// The cache entry's delete.
    DeletingCache,
    /// Done: no binary, no working copy, no index entry, no cache entry.
    Removed,
    /// Given up; nothing more is asked for.
    Failed { error: OpError },
}

/// One package's removal in flight.
pub struct RemoveRun {
    pub id: String,
    pub cache: bool,
    pub phase: RemovePhase,
}

/// How one step of a removal answers an event.
pub open spec fn remove_step_rel(
    pre: RemoveRun,
    ev: Event,
    post: RemoveRun,
    act: Option<Action>,
) -> bool {
    &&& post.id@ == pre.id@
    &&& post.cache == pre.cache
    &&& match pre.phase {
        RemovePhase::Removed => post == pre && act is None,
        RemovePhase::Failed { .. } => post == pre && act is None,
        RemovePhase::ReadingIndex => match ev {
            Event::Missing => post.phase matches RemovePhase::Failed { error } && error is NoIndex
                && act is None,
            Event::Text(t) => match json::str_object_text(t@) {
                Some(ps) => {
                    if !crate::table::pairs_map(ps).contains_key(pre.id@) {
                        post.phase matches RemovePhase::Failed { error } && (
                        error matches OpError::PackageNotFound(pe) && pe.0@ == pre.id@) && act
                            is None
                    } else {
                        &&& post.phase matches RemovePhase::WritingIndex { name } && name@
                            == crate::table::pairs_map(ps)[pre.id@]
                        &&& act matches Some(Action::WriteFile { path, text }) && path.deep_view()
                            == index_file_view() && exists|ps2: Seq<(Seq<char>, Seq<char>)>|
                            #[trigger] removed_entry(ps, pre.id@, ps2) && text@
                                == json::object_text(ps2)
                    }
                },
                None => post.phase matches RemovePhase::Failed { error } && error
                    is FilesystemFailure && act is None,
            },
            Event::Failed(m) => post.phase matches RemovePhase::Failed { error } && (
            error matches OpError::FilesystemFailure(mm) && mm@ == m@) && act is None,
            _ => remove_protocol_failed(post) && act is None,
        },
        RemovePhase::WritingIndex { name } => match ev {
            Event::Succeeded => {
                &&& post.phase is DeletingBinary
                &&& act matches Some(Action::DeleteFile { path }) && path.deep_view()
                    == bin_file_view(name@)
            },
            Event::Failed(m) => post.phase matches RemovePhase::Failed { error } && (
            error matches OpError::FilesystemFailure(mm) && mm@ == m@) && act is None,
            _ => remove_protocol_failed(post) && act is None,
        },
        RemovePhase::DeletingBinary => match ev {
            Event::Succeeded => {
                &&& post.phase is DeletingSource
                &&& act matches Some(Action::DeleteDir { path }) && path.deep_view()
                    == source_dir_view(pre.id@)
            },
            Event::Failed(m) => post.phase matches RemovePhase::Failed { error } && (
            error matches OpError::FilesystemFailure(mm) && mm@ == m@) && act is None,
            _ => remove_protocol_failed(post) && act is None,
        },
        RemovePhase::DeletingSource => match ev {
            Event::Succeeded => {
                if pre.cache {
                    &&& post.phase is DeletingCache
                    &&& act matches Some(Action::DeleteDir { path }) && path.deep_view()
                        == cache_dir_view(pre.id@)
                } else {
                    post.phase is Removed && act is None
                }
            },
            Event::Failed(m) => post.phase matches RemovePhase::Failed { error } && (
            error matches OpError::FilesystemFailure(mm) && mm@ == m@) && act is None,
            _ => remove_protocol_failed(post) && act is None,
        },
        RemovePhase::DeletingCache => match ev {
            Event::Succeeded => post.phase is Removed && act is None,
            Event::Failed(m) => post.phase matches RemovePhase::Failed { error } && (
            error matches OpError::FilesystemFailure(mm) && mm@ == m@) && act is None,
            _ => remove_protocol_failed(post) && act is None,
        },
    }
}

// ---------------------------------------------------------------------------
// What the install relation guarantees.
// ---------------------------------------------------------------------------
/// A failed install asks for nothing further, whatever arrives: in
/// particular, nothing more is written anywhere.
pub proof fn lemma_failed_add_is_final(pre: AddRun, ev: Event, post: AddRun, act: Option<Action>)
    requires
        pre.phase is Failed,
        add_step_rel(pre, ev, post, act),
    ensures
        post == pre,
        act is None,
{
}

/// A version label that the manifest does not map fails the install with
/// `PackageVersionNotFound`, naming the identifier and the label, and
/// asks for nothing: the index is never touched.
pub proof fn lemma_version_absent_fails(pre: AddRun, ev: Event, post: AddRun, act: Option<Action>)
    requires
        pre.phase is ReadingManifest,
        ev matches Event::Text(t) && json::manifest_fields(t@) matches Some(f) && f.2.len() > 0
            && !crate::table::pairs_map(f.2).contains_key(pre.version@),
        add_step_rel(pre, ev, post, act),
    ensures
        post.phase matches AddPhase::Failed { error } && (
        error matches OpError::PackageVersionNotFound(pe) && pe.id@ == pre.id@ && pe.version@
            == pre.version@),
        act is None,
{
}

/// An install writes one file only — the binary index — and only once the
/// binary is in place and the build output is dealt with.
pub proof fn lemma_add_writes_only_index(pre: AddRun, ev: Event, post: AddRun, act: Option<Action>)
    requires
        add_step_rel(pre, ev, post, act),
        act matches Some(a) && a is WriteFile,
    ensures
        pre.phase is ReadingIndex,
        post.phase is WritingIndex,
        act matches Some(Action::WriteFile { path, .. }) && path.deep_view() == index_file_view(),
{
}

/// A build is asked for only once the working copy stands at the resolved
/// branch tip, and, with the cache capability, only after the package's
/// cache entry was offered back to the working copy.
pub proof fn lemma_cache_restored_before_build(
    pre: AddRun,
    ev: Event,
    post: AddRun,
    act: Option<Action>,
)
    requires
        add_step_rel(pre, ev, post, act),
        act matches Some(a) && a is Build,
    ensures
        pre.phase is RestoringCache || pre.phase is SyncingSource,
        pre.cache ==> pre.phase is RestoringCache,
        ev is Succeeded,
{
}

// ---------------------------------------------------------------------------
// Whole futures of an install: a trace records, for each step, the event
// consumed, the state reached and the action asked for.
// ---------------------------------------------------------------------------
/// The state a step starts from: the previous step's state, or the
/// initial one.
pub open spec fn add_trace_pre(
    init: AddRun,
    tr: Seq<(Event, AddRun, Option<Action>)>,
    i: int,
) -> AddRun {
    if i == 0 {
        init
    } else {
        tr[i - 1].1
    }
}

/// Every step of the trace follows the install relation.
pub open spec fn add_run_trace(init: AddRun, tr: Seq<(Event, AddRun, Option<Action>)>) -> bool {
    forall|i: int|
        0 <= i < tr.len() ==> #[trigger] add_step_rel(
            add_trace_pre(init, tr, i),
            tr[i].0,
            tr[i].1,
            tr[i].2,
        )
}

/// A failure is forever: whatever the world reports afterwards, every
/// later state is that same failure and nothing further is asked for.
pub proof fn lemma_trace_failure_is_forever(init: AddRun, tr: Seq<(Event, AddRun, Option<Action>)>)
    requires
        init.phase is Failed,
        add_run_trace(init, tr),
    ensures
        forall|i: int| 0 <= i < tr.len() ==> tr[i].1 == init && tr[i].2 is None,
    decreases tr.len(),
{
    if tr.len() > 0 {
        assert(add_step_rel(add_trace_pre(init, tr, 0), tr[0].0, tr[0].1, tr[0].2));
        assert(tr[0].1 == init && tr[0].2 is None);
        let dtr = tr.drop_first();
        assert forall|i: int| 0 <= i < dtr.len() implies #[trigger] add_step_rel(
            add_trace_pre(init, dtr, i),
            dtr[i].0,
            dtr[i].1,
            dtr[i].2,
        ) by {
            assert(add_step_rel(add_trace_pre(init, tr, i + 1), tr[i + 1].0, tr[i + 1].1, tr[i
                + 1].2));
            assert(dtr[i] == tr[i + 1]);
            if i > 0 {
                assert(add_trace_pre(init, dtr, i) == tr[i].1);
            }
        }
        lemma_trace_failure_is_forever(init, dtr);
        assert forall|i: int| 0 <= i < tr.len() implies tr[i].1 == init && tr[i].2 is None by {
            if i > 0 {
                assert(dtr[i - 1] == tr[i]);
            }
        }
    }
}

/// The whole of what a version label absent from the manifest entails: the
/// install fails at once with `PackageVersionNotFound`, and in everything
/// that follows no action — in particular no index write — is ever asked
/// for.
pub proof fn lemma_trace_version_absent_never_writes(
    init: AddRun,
    tr: Seq<(Event, AddRun, Option<Action>)>,
)
    requires
        init.phase is ReadingManifest,
        add_run_trace(init, tr),
        tr.len() > 0,
        tr[0].0 matches Event::Text(t) && json::manifest_fields(t@) matches Some(f) && f.2.len()
            > 0 && !crate::table::pairs_map(f.2).contains_key(init.version@),
    ensures
        forall|i: int| 0 <= i < tr.len() ==> tr[i].2 is None,
        forall|i: int|
            0 <= i < tr.len() ==> ((#[trigger] tr[i].1).phase matches AddPhase::Failed { error }
                && (error matches OpError::PackageVersionNotFound(pe) && pe.id@ == init.id@
                && pe.version@ == init.version@)),
{
    assert(add_step_rel(add_trace_pre(init, tr, 0), tr[0].0, tr[0].1, tr[0].2));
    lemma_version_absent_fails(init, tr[0].0, tr[0].1, tr[0].2);
    let f0 = tr[0].1;
    let dtr = tr.drop_first();
    assert forall|i: int| 0 <= i < dtr.len() implies #[trigger] add_step_rel(
        add_trace_pre(f0, dtr, i),
        dtr[i].0,
        dtr[i].1,
        dtr[i].2,
    ) by {
        assert(add_step_rel(add_trace_pre(init, tr, i + 1), tr[i + 1].0, tr[i + 1].1, tr[i
            + 1].2));
        assert(dtr[i] == tr[i + 1]);
        if i > 0 {
            assert(add_trace_pre(f0, dtr, i) == tr[i].1);
        }
    }
    lemma_trace_failure_is_forever(f0, dtr);
    assert forall|i: int| 0 <= i < tr.len() implies tr[i].2 is None by {
        if i > 0 {
            assert(dtr[i - 1] == tr[i]);
        }
    }
    assert forall|i: int| 0 <= i < tr.len() implies (#[trigger] tr[i].1).phase
        matches AddPhase::Failed { error } && (error matches OpError::PackageVersionNotFound(pe)
        && pe.id@ == init.id@ && pe.version@ == init.version@) by {
        if i > 0 {
            assert(dtr[i - 1] == tr[i]);
            assert(tr[i].1 == f0);
        }
    }
}

/// An install is recorded as done only right after the index write
/// succeeded.
pub proof fn lemma_installed_only_after_write(
    pre: AddRun,
    ev: Event,
    post: AddRun,
    act: Option<Action>,
)
    requires
        add_step_rel(pre, ev, post, act),
        post.phase is Installed,
        !(pre.phase is Installed),
    ensures
        pre.phase is WritingIndex,
        ev is Succeeded,
        act is None,
{
}

/// An event of a kind the pending action cannot produce.
pub open spec fn remove_protocol_failed(post: RemoveRun) -> bool {
    post.phase matches RemovePhase::Failed { error } && error is FilesystemFailure
}

// ---------------------------------------------------------------------------
// What the removal relation guarantees.
// ---------------------------------------------------------------------------
/// A failed removal asks for nothing further.
pub proof fn lemma_failed_remove_is_final(
    pre: RemoveRun,
    ev: Event,
    post: RemoveRun,
    act: Option<Action>,
)
    requires
        pre.phase is Failed,
        remove_step_rel(pre, ev, post, act),
    ensures
        post == pre,
        act is None,
{
}

/// Removing an identifier the index does not hold fails with
/// `PackageNotFound`, naming it, and asks for nothing: no file is
/// deleted.
pub proof fn lemma_remove_absent_fails(
    pre: RemoveRun,
    ev: Event,
    post: RemoveRun,
    act: Option<Action>,
)
    requires
        pre.phase is ReadingIndex,
        ev matches Event::Text(t) && json::str_object_text(t@) matches Some(ps)
            && !crate::table::pairs_map(ps).contains_key(pre.id@),
        remove_step_rel(pre, ev, post, act),
    ensures
        post.phase matches RemovePhase::Failed { error } && (
        error matches OpError::PackageNotFound(pe) && pe.0@ == pre.id@),
        act is None,
{
}

/// A removal deletes the binary only after the index, its entry dropped,
/// was written back: a crash between the two leaves a stale file, never a
/// dangling index entry.
pub proof fn lemma_remove_deletes_binary_after_index_write(
    pre: RemoveRun,
    ev: Event,
    post: RemoveRun,
    act: Option<Action>,
)
    requires
        remove_step_rel(pre, ev, post, act),
        act matches Some(a) && a is DeleteFile,
    ensures
        pre.phase is WritingIndex,
        ev is Succeeded,
{
}

/// A removal deletes a cache entry only with the capability enabled, and
/// only once the working copy is gone.
pub proof fn lemma_remove_cache_entry_only_with_capability(
    pre: RemoveRun,
    ev: Event,
    post: RemoveRun,
    act: Option<Action>,
)
    requires
        remove_step_rel(pre, ev, post, act),
        act matches Some(Action::DeleteDir { path }) && path.deep_view() == cache_dir_view(
            pre.id@,
        ),
    ensures
        pre.cache,
        pre.phase is DeletingSource,
{
    reveal_strlit("src");
    reveal_strlit("targets");
    assert("src"@.len() == 3 && "targets"@.len() == 7);
    assert(source_dir_view(pre.id@)[0] != cache_dir_view(pre.id@)[0]);
}

/// Begins one package's removal: the first thing asked for is the binary
/// index file's contents.
pub fn remove_start(cfg: &Config, id: String) -> (r: (RemoveRun, Action))
    ensures
        r.0.id@ == id@ && r.0.cache == cfg.cache_enabled,
        r.0.phase is ReadingIndex,
        r.1 matches Action::ReadFile { path } && path.deep_view() == index_file_view(),
{
    let act = Action::ReadFile { path: index_file() };
    (RemoveRun { id, cache: cfg.cache_enabled, phase: RemovePhase::ReadingIndex }, act)
}

/// One step of a removal.
pub fn remove_step(run: RemoveRun, event: Event) -> (r: (RemoveRun, Option<Action>))
    ensures
        remove_step_rel(run, event, r.0, r.1),
{
    let RemoveRun { id, cache, phase } = run;
    match phase {
        RemovePhase::Removed => (RemoveRun { id, cache, phase: RemovePhase::Removed }, None),
        RemovePhase::Failed { error } => (
            RemoveRun { id, cache, phase: RemovePhase::Failed { error } },
            None,
        ),
        RemovePhase::ReadingIndex => match event {
            Event::Missing => (
                RemoveRun {
                    id,
                    cache,
                    phase: RemovePhase::Failed { error: OpError::NoIndex(NoBinaryIndex) },
                },
                None,
            ),
            Event::Text(txt) => {
                let chars = to_chars(txt.as_str());
                match json::decode_str_object(chars.as_slice()) {
                    Some(mut t) => {
                        let ghost t0 = t.view_pairs();
                        match t.remove(&id) {
                            Some(name) => {
                                proof {
                                    assert(removed_entry(t0, id@, t.view_pairs()));
                                }
                                let text = from_chars(json::encode_str_object(&t).as_slice());
                                let act = Action::WriteFile { path: index_file(), text };
                                (
                                    RemoveRun {
                                        id,
                                        cache,
                                        phase: RemovePhase::WritingIndex { name },
                                    },
                                    Some(act),
                                )
                            },
                            None => {
                                let e = OpError::PackageNotFound(
                                    PackageNotFoundError(id.clone()),
                                );
                                (
                                    RemoveRun { id, cache, phase: RemovePhase::Failed { error: e } },
                                    None,
                                )
                            },
                        }
                    },
                    None => {
                        let e = OpError::FilesystemFailure(
                            String::from_str("the binary index could not be decoded"),
                        );
                        (RemoveRun { id, cache, phase: RemovePhase::Failed { error: e } }, None)
                    },
                }
            },
            Event::Failed(m) => (
                RemoveRun {
                    id,
                    cache,
                    phase: RemovePhase::Failed { error: OpError::FilesystemFailure(m) },
                },
                None,
            ),
            _ => (
                RemoveRun { id, cache, phase: RemovePhase::Failed { error: protocol_error() } },
                None,
            ),
        },
        RemovePhase::WritingIndex { name } => match event {
            Event::Succeeded => {
                let act = Action::DeleteFile { path: bin_file(name) };
                (RemoveRun { id, cache, phase: RemovePhase::DeletingBinary }, Some(act))
            },
            Event::Failed(m) => (
                RemoveRun {
                    id,
                    cache,
                    phase: RemovePhase::Failed { error: OpError::FilesystemFailure(m) },
                },
                None,
            ),
            _ => (
                RemoveRun { id, cache, phase: RemovePhase::Failed { error: protocol_error() } },
                None,
            ),
        },
        RemovePhase::DeletingBinary => match event {
            Event::Succeeded => {
                let act = Action::DeleteDir { path: source_dir(id.as_str()) };
                (RemoveRun { id, cache, phase: RemovePhase::DeletingSource }, Some(act))
            },
            Event::Failed(m) => (
                RemoveRun {
                    id,
                    cache,
                    phase: RemovePhase::Failed { error: OpError::FilesystemFailure(m) },
                },
                None,
            ),
            _ => (
                RemoveRun { id, cache, phase: RemovePhase::Failed { error: protocol_error() } },
                None,
            ),
        },
        RemovePhase::DeletingSource => match event {
            Event::Succeeded => {
                if cache {
                    let act = Action::DeleteDir { path: cache_dir(id.as_str()) };
                    (RemoveRun { id, cache, phase: RemovePhase::DeletingCache }, Some(act))
                } else {
                    (RemoveRun { id, cache, phase: RemovePhase::Removed }, None)
                }
            },
            Event::Failed(m) => (
                RemoveRun {
                    id,
                    cache,
                    phase: RemovePhase::Failed { error: OpError::FilesystemFailure(m) },
                },
                None,
            ),
            _ => (
                RemoveRun { id, cache, phase: RemovePhase::Failed { error: protocol_error() } },
                None,
            ),
        },
        RemovePhase::DeletingCache => match event {
            Event::Succeeded => (RemoveRun { id, cache, phase: RemovePhase::Removed }, None),
            Event::Failed(m) => (
                RemoveRun {
                    id,
                    cache,
                    phase: RemovePhase::Failed { error: OpError::FilesystemFailure(m) },
                },
                None,
            ),
            _ => (
                RemoveRun { id, cache, phase: RemovePhase::Failed { error: protocol_error() } },
                None,
            ),
        },
    }
}

} // verus!
