//! The version resolver: it scans the well-known manifest files in a fixed
//! order, adopts the version of the last file whose detection succeeds,
//! exposes the bump operations, and rewrites every discovered manifest.

use vstd::prelude::*;
use vstd::string::StringExecFns;
use crate::semver::{SemVer, VersionError};
use crate::text::{spec_ends_with, ends_with_str};
use crate::project_files::{ProjectFile, ProjectType, spec_update_file};
use crate::cmake::{spec_detect_cmake, extract_cmake_version};
use crate::meson::{spec_detect_meson, extract_meson_version};
use crate::kv::{
    spec_detect_kv, extract_platformio_ini_version, extract_library_properties_version,
};
use crate::toml_doc::{
    spec_detect_cargo, spec_detect_pyproject, detect_cargo_version, detect_pyproject_version,
};
use crate::json_doc::{spec_detect_library_json, extract_library_json_version};

verus! {

/// The version resolver. Both fields are public so that contracts can
/// speak of them: the version most recently detected (or the `0.1.0`
/// default), and the manifests found by the scan, in scan order.
pub struct VersionManager {
    pub current_version: SemVer,
    pub project_files: Vec<ProjectFile>,
}

/// The well-known manifest file names, in scan order.
pub open spec fn spec_scan_order() -> Seq<Seq<char>> {
    seq![
        "Cargo.toml"@,
        "pyproject.toml"@,
        "CMakeLists.txt"@,
        "meson.build"@,
        "platformio.ini"@,
        "library.json"@,
        "library.properties"@,
    ]
}

/// The well-known manifest file names in scan order, executable form.
pub fn well_known_manifests() -> (r: Vec<String>)
    ensures
        r.deep_view() == spec_scan_order(),
{
    let mut v: Vec<String> = Vec::new();
    v.push(String::from_str("Cargo.toml"));
    v.push(String::from_str("pyproject.toml"));
    v.push(String::from_str("CMakeLists.txt"));
    v.push(String::from_str("meson.build"));
    v.push(String::from_str("platformio.ini"));
    v.push(String::from_str("library.json"));
    v.push(String::from_str("library.properties"));
    proof {
        assert(v.deep_view() =~= spec_scan_order());
    }
    v
}

/// The manifest kind a file name selects, by its well-known suffix.
#[verifier::opaque]
pub open spec fn spec_manifest_type(path: Seq<char>) -> Option<ProjectType> {
    if spec_ends_with(path, "Cargo.toml"@) {
        Some(ProjectType::Rust)
    } else if spec_ends_with(path, "pyproject.toml"@) {
        Some(ProjectType::Python)
    } else if spec_ends_with(path, "CMakeLists.txt"@) {
        Some(ProjectType::Cpp)
    } else if spec_ends_with(path, "meson.build"@) {
        Some(ProjectType::Meson)
    } else if spec_ends_with(path, "platformio.ini"@) || spec_ends_with(path, "library.json"@)
        || spec_ends_with(path, "library.properties"@) {
        Some(ProjectType::PlatformIO)
    } else {
        None
    }
}

/// The manifest kind a file name selects, executable form.
pub fn manifest_type_of(path: &str) -> (r: Option<ProjectType>)
    ensures
        r == spec_manifest_type(path@),
{
    proof {
        reveal(spec_manifest_type);
    }
    if ends_with_str(path, "Cargo.toml") {
        Some(ProjectType::Rust)
    } else if ends_with_str(path, "pyproject.toml") {
        Some(ProjectType::Python)
    } else if ends_with_str(path, "CMakeLists.txt") {
        Some(ProjectType::Cpp)
    } else if ends_with_str(path, "meson.build") {
        Some(ProjectType::Meson)
    } else if ends_with_str(path, "platformio.ini") || ends_with_str(path, "library.json")
        || ends_with_str(path, "library.properties") {
        Some(ProjectType::PlatformIO)
    } else {
        None
    }
}

/// Detection over one manifest's text, chosen by the file name's
/// well-known suffix.
#[verifier::opaque]
pub open spec fn spec_detect_file(path: Seq<char>, content: Seq<char>) -> Result<
    Option<SemVer>,
    VersionError,
> {
    if spec_ends_with(path, "Cargo.toml"@) {
        spec_detect_cargo(content)
    } else if spec_ends_with(path, "pyproject.toml"@) {
        spec_detect_pyproject(content)
    } else if spec_ends_with(path, "CMakeLists.txt"@) {
        spec_detect_cmake(content)
    } else if spec_ends_with(path, "meson.build"@) {
        spec_detect_meson(content)
    } else if spec_ends_with(path, "platformio.ini"@) {
        spec_detect_kv(content, true)
    } else if spec_ends_with(path, "library.json"@) {
        spec_detect_library_json(content)
    } else if spec_ends_with(path, "library.properties"@) {
        spec_detect_kv(content, false)
    } else {
        Err(VersionError::Unsupported)
    }
}

/// Detection over one manifest's text, executable form.
pub fn detect_file(path: &str, content: &str) -> (r: Result<Option<SemVer>, VersionError>)
    ensures
        r == spec_detect_file(path@, content@),
{
    proof {
        reveal(spec_detect_file);
    }
    if ends_with_str(path, "Cargo.toml") {
        detect_cargo_version(content)
    } else if ends_with_str(path, "pyproject.toml") {
        detect_pyproject_version(content)
    } else if ends_with_str(path, "CMakeLists.txt") {
        extract_cmake_version(content)
    } else if ends_with_str(path, "meson.build") {
        extract_meson_version(content)
    } else if ends_with_str(path, "platformio.ini") {
        extract_platformio_ini_version(content)
    } else if ends_with_str(path, "library.json") {
        extract_library_json_version(content)
    } else if ends_with_str(path, "library.properties") {
        extract_library_properties_version(content)
    } else {
        Err(VersionError::Unsupported)
    }
}

/// A file whose detection is not refused by name belongs to a known
/// manifest kind.
proof fn lemma_detect_has_type(path: Seq<char>, content: Seq<char>)
    ensures
        spec_manifest_type(path) is None ==> spec_detect_file(path, content) == Err::<
            Option<SemVer>,
            VersionError,
        >(VersionError::Unsupported),
{
    reveal(spec_manifest_type);
    reveal(spec_detect_file);
}

/// The `(path, kind)` entries of a sequence of manifest files.
pub open spec fn file_entries(files: Seq<ProjectFile>) -> Seq<(Seq<char>, ProjectType)> {
    files.map_values(|f: ProjectFile| (f.path@, f.project_type))
}

/// The views of the scanned `(path, content)` pairs.
pub open spec fn pair_views(found: Seq<(String, String)>) -> Seq<(Seq<char>, Seq<char>)> {
    found.map_values(|p: (String, String)| (p.0@, p.1@))
}

/// The scan folded over `(path, content)` pairs: each successfully
/// detected version unconditionally overwrites the current one (the last
/// detection wins), each examined file is recorded, and the first error
/// stops the scan with the files recorded so far.
pub open spec fn spec_scan(cur: SemVer, pairs: Seq<(Seq<char>, Seq<char>)>) -> (
    SemVer,
    Seq<(Seq<char>, ProjectType)>,
    Option<VersionError>,
)
    decreases pairs.len(),
{
    if pairs.len() == 0 {
        (cur, Seq::empty(), None)
    } else {
        match spec_detect_file(pairs[0].0, pairs[0].1) {
            Err(e) => (cur, Seq::empty(), Some(e)),
            Ok(vo) => {
                let cur2 = match vo {
                    Some(v) => v,
                    None => cur,
                };
                let ty = match spec_manifest_type(pairs[0].0) {
                    Some(t) => t,
                    None => ProjectType::Rust,
                };
                let rest = spec_scan(cur2, pairs.subrange(1, pairs.len() as int));
                (rest.0, seq![(pairs[0].0, ty)] + rest.1, rest.2)
            },
        }
    }
}

/// The rewrite folded over the discovered manifests and their texts: each
/// file's adapter applies the new version in scan order, and the first
/// error stops the run.
pub open spec fn spec_update_all(
    files: Seq<(Seq<char>, ProjectType)>,
    contents: Seq<Seq<char>>,
    new_version: Seq<char>,
) -> Result<Seq<Seq<char>>, VersionError>
    decreases files.len(),
{
    if files.len() == 0 {
        Ok(Seq::empty())
    } else {
        match spec_update_file(files[0].1, files[0].0, contents[0], new_version) {
            Err(e) => Err(e),
            Ok(out) => match spec_update_all(
                files.subrange(1, files.len() as int),
                contents.subrange(1, contents.len() as int),
                new_version,
            ) {
                Err(e) => Err(e),
                Ok(rest) => Ok(seq![out] + rest),
            },
        }
    }
}

impl VersionManager {
    /// A fresh resolver: version `0.1.0` and no manifests.
    pub fn new() -> (r: VersionManager)
        ensures
            r.current_version == (SemVer { major: 0, minor: 1, patch: 0 }),
            r.project_files@.len() == 0,
    {
        VersionManager {
            current_version: SemVer { major: 0, minor: 1, patch: 0 },
            project_files: Vec::new(),
        }
    }

    /// Law: a major bump of `x.y.z` is `(x+1).0.0`.
    pub fn bump_major(&mut self) -> (r: SemVer)
        requires
            old(self).current_version.major < u64::MAX,
        ensures
            final(self).current_version == (SemVer {
                major: (old(self).current_version.major + 1) as u64,
                minor: 0,
                patch: 0,
            }),
            final(self).project_files == old(self).project_files,
            r == final(self).current_version,
    {
        self.current_version =
        SemVer { major: self.current_version.major + 1, minor: 0, patch: 0 };
        self.current_version
    }

    /// Law: a minor bump of `x.y.z` is `x.(y+1).0`.
    pub fn bump_minor(&mut self) -> (r: SemVer)
        requires
            old(self).current_version.minor < u64::MAX,
        ensures
            final(self).current_version == (SemVer {
                major: old(self).current_version.major,
                minor: (old(self).current_version.minor + 1) as u64,
                patch: 0,
            }),
            final(self).project_files == old(self).project_files,
            r == final(self).current_version,
    {
        self.current_version =
        SemVer {
            major: self.current_version.major,
            minor: self.current_version.minor + 1,
            patch: 0,
        };
        self.current_version
    }

    /// Law: a patch bump of `x.y.z` is `x.y.(z+1)`.
    pub fn bump_patch(&mut self) -> (r: SemVer)
        requires
            old(self).current_version.patch < u64::MAX,
        ensures
            final(self).current_version == (SemVer {
                major: old(self).current_version.major,
                minor: old(self).current_version.minor,
                patch: (old(self).current_version.patch + 1) as u64,
            }),
            final(self).project_files == old(self).project_files,
            r == final(self).current_version,
    {
        self.current_version =
        SemVer {
            major: self.current_version.major,
            minor: self.current_version.minor,
            patch: self.current_version.patch + 1,
        };
        self.current_version
    }

    /// The version the resolver currently holds.
    pub fn get_current_version(&self) -> (r: SemVer)
        ensures
            r == self.current_version,
    {
        self.current_version
    }

    /// Runs the scan over the given `(path, content)` pairs, in the order
    /// given: the last successful detection wins, every examined file is
    /// recorded, and the first error aborts the scan, keeping what was
    /// already recorded.
    #[verifier::rlimit(100)]
    #[verifier::spinoff_prover]
    pub fn detect_version_files(&mut self, found: &Vec<(String, String)>) -> (r: Result<
        (),
        VersionError,
    >)
        ensures
            ({
                let scan = spec_scan(old(self).current_version, pair_views(found@));
                &&& final(self).current_version == scan.0
                &&& file_entries(final(self).project_files@) == file_entries(
                    old(self).project_files@,
                ) + scan.1
                &&& r == (match scan.2 {
                    None => Ok::<(), VersionError>(()),
                    Some(e) => Err::<(), VersionError>(e),
                })
            }),
    {
        let ghost cur0 = self.current_version;
        let ghost files0 = self.project_files@;
        let ghost pairs = pair_views(found@);
        let ghost full = spec_scan(cur0, pairs);
        let n = found.len();
        let mut i: usize = 0;
        proof {
            assert(pairs.subrange(0, n as int) =~= pairs);
            assert(self.project_files@.subrange(0, files0.len() as int) =~= files0);
            assert(file_entries(
                self.project_files@.subrange(
                    files0.len() as int,
                    self.project_files@.len() as int,
                ),
            ) + spec_scan(self.current_version, pairs.subrange(0, n as int)).1 =~= spec_scan(
                cur0,
                pairs,
            ).1);
        }
        while i < n
            invariant
                n == found.len(),
                pairs == pair_views(found@),
                pairs.len() == n,
                0 <= i <= n,
                cur0 == old(self).current_version,
                files0 == old(self).project_files@,
                full == spec_scan(cur0, pairs),
                files0.len() <= self.project_files@.len(),
                self.project_files@.subrange(0, files0.len() as int) == files0,
                ({
                    let rest = spec_scan(self.current_version, pairs.subrange(i as int, n as int));
                    full == (
                        rest.0,
                        file_entries(
                            self.project_files@.subrange(
                                files0.len() as int,
                                self.project_files@.len() as int,
                            ),
                        ) + rest.1,
                        rest.2,
                    )
                }),
            decreases n - i,
        {
            let ghost suffix = pairs.subrange(i as int, n as int);
            let ghost added = self.project_files@.subrange(
                files0.len() as int,
                self.project_files@.len() as int,
            );
            proof {
                assert(pairs[i as int] == (found@[i as int].0@, found@[i as int].1@));
                assert(suffix[0] == pairs[i as int]);
            }
            let r = detect_file(found[i].0.as_str(), found[i].1.as_str());
            match r {
                Err(e) => {
                    proof {
                        assert(spec_scan(self.current_version, suffix) == (
                            self.current_version,
                            Seq::<(Seq<char>, ProjectType)>::empty(),
                            Some(e),
                        ));
                        assert(file_entries(added) + Seq::<(
                            Seq<char>,
                            ProjectType,
                        )>::empty() =~= file_entries(added));
                        assert(files0 + added =~= self.project_files@);
                        assert(file_entries(files0 + added) =~= file_entries(files0)
                            + file_entries(added));
                    }
                    return Err(e);
                },
                Ok(vo) => {
                    let ty = match manifest_type_of(found[i].0.as_str()) {
                        Some(t) => t,
                        None => {
                            proof {
                                lemma_detect_has_type(
                                    found@[i as int].0@,
                                    found@[i as int].1@,
                                );
                                assert(false);
                            }
                            ProjectType::Rust
                        },
                    };
                    let ghost cur_a = self.current_version;
                    match vo {
                        Some(v) => {
                            self.current_version = v;
                        },
                        None => {},
                    }
                    let pf = ProjectFile { path: found[i].0.clone(), project_type: ty };
                    self.project_files.push(pf);
                    proof {
                        let rest_b = spec_scan(
                            self.current_version,
                            pairs.subrange(i + 1, n as int),
                        );
                        assert(suffix.subrange(1, suffix.len() as int) =~= pairs.subrange(
                            i + 1,
                            n as int,
                        ));
                        assert(spec_scan(cur_a, suffix) == (
                            rest_b.0,
                            seq![(pairs[i as int].0, ty)] + rest_b.1,
                            rest_b.2,
                        ));
                        let added2 = self.project_files@.subrange(
                            files0.len() as int,
                            self.project_files@.len() as int,
                        );
                        assert(added2 =~= added.push(
                            ProjectFile { path: found[i as int].0, project_type: ty },
                        )) by {
                            assert(self.project_files@.last().path@ == found@[i as int].0@);
                        }
                        assert(file_entries(added2) =~= file_entries(added).push(
                            (pairs[i as int].0, ty),
                        ));
                        assert(file_entries(added) + (seq![(pairs[i as int].0, ty)] + rest_b.1)
                            =~= file_entries(added2) + rest_b.1);
                        assert(self.project_files@.subrange(0, files0.len() as int) =~= files0);
                    }
                },
            }
            i = i + 1;
        }
        proof {
            let rest = spec_scan(self.current_version, pairs.subrange(n as int, n as int));
            assert(pairs.subrange(n as int, n as int).len() == 0);
            assert(rest == (
                self.current_version,
                Seq::<(Seq<char>, ProjectType)>::empty(),
                None::<VersionError>,
            ));
            let added = self.project_files@.subrange(
                files0.len() as int,
                self.project_files@.len() as int,
            );
            assert(file_entries(added) + Seq::<(Seq<char>, ProjectType)>::empty()
                =~= file_entries(added));
            assert(files0 + added =~= self.project_files@);
            assert(file_entries(files0 + added) =~= file_entries(files0) + file_entries(added));
        }
        Ok(())
    }

    /// Rewrites every discovered manifest's text in scan order, handing
    /// back one output per manifest; the first failing adapter aborts the
    /// run with its error.
    #[verifier::rlimit(100)]
    #[verifier::spinoff_prover]
    pub fn update_all_versions(&self, contents: &Vec<String>, new_version: &str) -> (r: Result<
        Vec<String>,
        VersionError,
    >)
        requires
            contents@.len() == self.project_files@.len(),
        ensures
            ({
                let full = spec_update_all(
                    file_entries(self.project_files@),
                    contents.deep_view(),
                    new_version@,
                );
                match r {
                    Ok(outs) => full == Ok::<Seq<Seq<char>>, VersionError>(outs.deep_view()),
                    Err(e) => full == Err::<Seq<Seq<char>>, VersionError>(e),
                }
            }),
    {
        let ghost entries = file_entries(self.project_files@);
        let ghost cdv = contents.deep_view();
        let ghost full = spec_update_all(entries, cdv, new_version@);
        let n = self.project_files.len();
        let mut out: Vec<String> = Vec::new();
        let mut i: usize = 0;
        proof {
            assert(entries.subrange(0, n as int) =~= entries);
            assert(cdv.subrange(0, n as int) =~= cdv);
            assert(out.deep_view() =~= Seq::<Seq<char>>::empty());
            match spec_update_all(entries, cdv, new_version@) {
                Ok(ro) => {
                    assert(out.deep_view() + ro =~= ro);
                },
                Err(_) => {},
            }
        }
        while i < n
            invariant
                n == self.project_files.len(),
                contents@.len() == n,
                entries == file_entries(self.project_files@),
                entries.len() == n,
                cdv == contents.deep_view(),
                cdv.len() == n,
                full == spec_update_all(entries, cdv, new_version@),
                0 <= i <= n,
                ({
                    let rest = spec_update_all(
                        entries.subrange(i as int, n as int),
                        cdv.subrange(i as int, n as int),
                        new_version@,
                    );
                    match rest {
                        Err(e) => full == Err::<Seq<Seq<char>>, VersionError>(e),
                        Ok(ro) => full == Ok::<Seq<Seq<char>>, VersionError>(
                            out.deep_view() + ro,
                        ),
                    }
                }),
            decreases n - i,
        {
            proof {
                assert(entries[i as int] == (
                    self.project_files@[i as int].path@,
                    self.project_files@[i as int].project_type,
                ));
                assert(cdv[i as int] == contents@[i as int]@);
                assert(entries.subrange(i as int, n as int)[0] == entries[i as int]);
                assert(cdv.subrange(i as int, n as int)[0] == cdv[i as int]);
                assert(entries.subrange(i as int, n as int).subrange(
                    1,
                    (n - i) as int,
                ) =~= entries.subrange(i + 1, n as int));
                assert(cdv.subrange(i as int, n as int).subrange(1, (n - i) as int)
                    =~= cdv.subrange(i + 1, n as int));
            }
            let res = self.project_files[i].update_version(contents[i].as_str(), new_version);
            match res {
                Err(e) => {
                    return Err(e);
                },
                Ok(o) => {
                    let ghost ov = o@;
                    let ghost old_dv = out.deep_view();
                    out.push(o);
                    proof {
                        let rest2 = spec_update_all(
                            entries.subrange(i + 1, n as int),
                            cdv.subrange(i + 1, n as int),
                            new_version@,
                        );
                        assert(out.deep_view() =~= old_dv.push(ov));
                        match rest2 {
                            Err(e) => {},
                            Ok(ro) => {
                                assert(old_dv + (seq![ov] + ro) =~= out.deep_view() + ro);
                            },
                        }
                    }
                },
            }
            i = i + 1;
        }
        proof {
            assert(entries.subrange(n as int, n as int).len() == 0);
            let rest = spec_update_all(
                entries.subrange(n as int, n as int),
                cdv.subrange(n as int, n as int),
                new_version@,
            );
            assert(rest == Ok::<Seq<Seq<char>>, VersionError>(Seq::empty()));
            assert(out.deep_view() + Seq::<Seq<char>>::empty() =~= out.deep_view());
        }
        Ok(out)
    }
}

} // verus!
