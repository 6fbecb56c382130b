//! The registry: package manifests, and resolving an identifier against
//! them.

use vstd::prelude::*;

verus! {

use crate::errors::{OpError, PackageNoVersionsError, PackageNotFoundError,
    PackageVersionNotFoundError};
use crate::json;
use crate::table::StrTable;
use crate::text::to_chars;

/// One package's descriptor: its identifier, the repository its source
/// lives in, and a mapping from version label to branch name.
pub struct Package {
    pub id: String,
    pub repo: String,
    pub versions: StrTable,
}

/// Whether a file's contents decode as a manifest.
pub open spec fn manifest_ok(file: Option<Seq<char>>) -> bool {
    match file {
        Some(t) => json::manifest_fields(t) is Some,
        None => false,
    }
}

/// How one resolved package relates to the manifest file it was read from.
pub open spec fn resolved_from(p: Package, file: Option<Seq<char>>) -> bool {
    &&& p.wf()
    &&& match file {
        Some(t) => json::manifest_fields(t) == Some((p.id@, p.repo@, p.versions.view_pairs())),
        None => false,
    }
}

impl Package {
    pub open spec fn wf(self) -> bool {
        self.versions.wf()
    }

    /// The version mapping as a mathematical map.
    pub open spec fn versions_map(self) -> Map<Seq<char>, Seq<char>> {
        self.versions.as_map()
    }

    /// Resolves one identifier against the registry. The caller refreshes
    /// the mirror and reads `<identifier>.json` from its manifest
    /// directory, passing the contents, or nothing when the file is
    /// absent.
    pub fn from_id(id: &str, file: Option<&str>) -> (r: Result<Package, OpError>)
        ensures
            match r {
                Ok(p) => resolved_from(p, view_of_file(file)),
                Err(e) => match e {
                    OpError::PackageNotFound(pe) => file is None && pe.0@ == id@,
                    OpError::FilesystemFailure(_) => view_of_file(file) matches Some(t)
                        && json::manifest_fields(t) is None,
                    _ => false,
                },
            },
    {
        match file {
            None => Err(OpError::PackageNotFound(PackageNotFoundError(String::from_str(id)))),
            Some(text) => {
                let chars = to_chars(text);
                match json::decode_manifest(chars.as_slice()) {
                    Some((mid, repo, versions)) => Ok(Package { id: mid, repo, versions }),
                    None => Err(
                        OpError::FilesystemFailure(
                            String::from_str("the manifest could not be decoded"),
                        ),
                    ),
                }
            },
        }
    }

    /// Resolves several identifiers, strictly in order, stopping at the
    /// first failure. `files[i]` holds what was read for `ids[i]`.
    pub fn from_ids(ids: &Vec<String>, files: &Vec<Option<String>>) -> (r: Result<
        Vec<Package>,
        OpError,
    >)
        requires
            ids@.len() == files@.len(),
        ensures
            match r {
                Ok(ps) => ps@.len() == ids@.len() && forall|i: int|
                    0 <= i < ps@.len() ==> resolved_from(#[trigger] ps@[i], files.deep_view()[i]),
                Err(e) => exists|i: int|
                    {
                        &&& 0 <= i < ids@.len()
                        &&& !manifest_ok(#[trigger] files.deep_view()[i])
                        &&& forall|j: int| 0 <= j < i ==> manifest_ok(#[trigger] files.deep_view()[j])
                        &&& match e {
                            OpError::PackageNotFound(pe) => files.deep_view()[i] is None && pe.0@
                                == ids.deep_view()[i],
                            OpError::FilesystemFailure(_) => files.deep_view()[i] matches Some(t)
                                && json::manifest_fields(t) is None,
                            _ => false,
                        }
                    },
            },
    {
        let n = ids.len();
        let mut out: Vec<Package> = Vec::new();
        let mut i: usize = 0;
        while i < n
            invariant
                i <= n,
                n == ids@.len(),
                n == files@.len(),
                out@.len() == i,
                forall|j: int|
                    0 <= j < i ==> resolved_from(#[trigger] out@[j], files.deep_view()[j]),
                forall|j: int| 0 <= j < i ==> manifest_ok(#[trigger] files.deep_view()[j]),
            decreases n - i,
        {
            let file: Option<&str> = match &files[i] {
                Some(t) => Some(t.as_str()),
                None => None,
            };
            proof {
                assert(files.deep_view()[i as int] == match files@[i as int] {
                    Some(t) => Some(t@),
                    None => None::<Seq<char>>,
                });
            }
            match Package::from_id(ids[i].as_str(), file) {
                Ok(p) => {
                    out.push(p);
                },
                Err(e) => {
                    return Err(e);
                },
            }
            i += 1;
        }
        Ok(out)
    }

    /// The branch a version label names, or why it names none: an empty
    /// version mapping makes the package uninstallable, and an absent
    /// label resolves to nothing.
    pub fn resolve_version(&self, version: &str) -> (r: Result<String, OpError>)
        requires
            self.wf(),
        ensures
            match r {
                Ok(b) => self.versions_map().contains_key(version@) && b@
                    == self.versions_map()[version@],
                Err(e) => match e {
                    OpError::PackageNoVersions(pe) => self.versions.view_pairs().len() == 0 && pe.0@
                        == self.id@,
                    OpError::PackageVersionNotFound(pe) => self.versions.view_pairs().len() > 0
                        && !self.versions_map().contains_key(version@) && pe.id@ == self.id@
                        && pe.version@ == version@,
                    _ => false,
                },
            },
    {
        if self.versions.len() == 0 {
            return Err(
                OpError::PackageNoVersions(PackageNoVersionsError(self.id.clone())),
            );
        }
        let label = String::from_str(version);
        match self.versions.get(&label) {
            Some(branch) => Ok(branch.clone()),
            None => Err(
                OpError::PackageVersionNotFound(
                    PackageVersionNotFoundError { id: self.id.clone(), version: label },
                ),
            ),
        }
    }
}

/// The view of an optional file's contents.
pub open spec fn view_of_file(file: Option<&str>) -> Option<Seq<char>> {
    match file {
        Some(t) => Some(t@),
        None => None,
    }
}

/// The position of the last `.` in a name, or a negative value when it has
/// none.
pub open spec fn last_dot(s: Seq<char>) -> int
    decreases s.len(),
{
    if s.len() == 0 {
        -1
    } else if s.last() == '.' {
        s.len() - 1
    } else {
        last_dot(s.drop_last())
    }
}

/// A file name without its extension; a name whose only `.` opens it is
/// kept whole.
pub open spec fn stem_of(s: Seq<char>) -> Seq<char> {
    if last_dot(s) <= 0 {
        s
    } else {
        s.take(last_dot(s))
    }
}

pub proof fn lemma_last_dot_bounds(s: Seq<char>)
    ensures
        -1 <= last_dot(s) < s.len(),
        last_dot(s) >= 0 ==> s[last_dot(s)] == '.',
        forall|j: int| last_dot(s) < j < s.len() ==> s[j] != '.',
    decreases s.len(),
{
    if s.len() > 0 && s.last() != '.' {
        lemma_last_dot_bounds(s.drop_last());
        assert(forall|j: int| 0 <= j < s.len() - 1 ==> s.drop_last()[j] == s[j]);
    }
}

/// The identifiers that a directory of manifest files names: each file
/// name with its extension dropped. The caller enumerates the mirror's
/// manifest directory and passes the file names.
pub fn list_ids(files: &Vec<String>) -> (r: Vec<String>)
    ensures
        r@.len() == files@.len(),
        forall|i: int|
            0 <= i < files@.len() ==> #[trigger] r.deep_view()[i] == stem_of(
                files.deep_view()[i],
            ),
{
    let n = files.len();
    let mut out: Vec<String> = Vec::new();
    let mut i: usize = 0;
    while i < n
        invariant
            i <= n,
            n == files@.len(),
            out@.len() == i,
            forall|j: int|
                0 <= j < i ==> #[trigger] out.deep_view()[j] == stem_of(files.deep_view()[j]),
        decreases n - i,
    {
        let name = to_chars(files[i].as_str());
        let m = name.len();
        proof {
            lemma_last_dot_bounds(name@);
        }
        // Find the last dot: `dot_plus` holds its position plus one, or
        // zero when the name has none.
        let mut dot_plus: usize = 0;
        let mut q: usize = 0;
        while q < m
            invariant
                q <= m,
                m == name@.len(),
                dot_plus <= q,
                dot_plus == 0 ==> forall|j: int| 0 <= j < q ==> name@[j] != '.',
                dot_plus > 0 ==> name@[dot_plus - 1] == '.' && forall|j: int|
                    dot_plus <= j < q ==> name@[j] != '.',
            decreases m - q,
        {
            if name[q] == '.' {
                dot_plus = q + 1;
            }
            q += 1;
        }
        proof {
            if dot_plus == 0 {
                assert(last_dot(name@) == -1);
            } else {
                let d = last_dot(name@);
                assert(d < dot_plus ==> d == dot_plus - 1);
                assert(d >= dot_plus ==> false);
                assert(d == dot_plus - 1);
            }
        }
        let stem = if dot_plus > 1 {
            let cut = dot_plus - 1;
            let mut prefix: Vec<char> = Vec::new();
            let mut p: usize = 0;
            while p < cut
                invariant
                    p <= cut,
                    cut <= name@.len(),
                    prefix@ =~= name@.take(p as int),
                decreases cut - p,
            {
                prefix.push(name[p]);
                proof {
                    assert(prefix@ =~= name@.take(p as int + 1));
                }
                p += 1;
            }
            crate::text::from_chars(prefix.as_slice())
        } else {
            files[i].clone()
        };
        let ghost sv = stem@;
        let ghost ov0 = out.deep_view();
        out.push(stem);
        proof {
            assert forall|j: int| 0 <= j < i as int + 1 implies #[trigger] out.deep_view()[j]
                == stem_of(files.deep_view()[j]) by {
                assert(out.deep_view()[j] == out@[j]@);
                if j < i as int {
                    assert(ov0[j] == out@[j]@);
                } else {
                    assert(out@[j]@ == sv);
                    assert(files.deep_view()[i as int] == files@[i as int]@);
                }
            }
        }
        i += 1;
    }
    out
}

} // verus!
