//! The WhisperX sidecar: a Python script that is run once for each recording.

use crate::diarization::search;
use vstd::prelude::*;

verus! {

/// Resolve the Python interpreter to use.
///
/// Tries `python3`, then `python` (Windows-friendly): `python3_runs` says
/// whether `python3` can be run.
pub fn resolve_python(python3_runs: bool) -> (r: &'static str)
    ensures
        r@ == interpreter(python3_runs),
{
    if python3_runs {
        "python3"
    } else {
        "python"
    }
}

/// The Python interpreter to use.
pub open spec fn interpreter(python3_runs: bool) -> Seq<char> {
    if python3_runs {
        "python3"@
    } else {
        "python"@
    }
}

/// A place that the script can be looked for from.
#[derive(Clone, Copy, Debug, PartialEq, Eq, Structural)]
pub enum Base {
    /// The path in the environment variable `WHISPERX_SIDECAR_PATH`.
    EnvOverride,
    /// The directory above the one that holds the executable.
    AppRoot,
    /// The directory that holds the executable.
    ExeDir,
    /// The directory two levels above the manifest.
    WorkspaceRoot,
    /// The directory of the manifest.
    ManifestDir,
}

/// A path where the script may be.
#[derive(Debug)]
pub struct Candidate {
    pub base: Base,
    /// What follows the base, component by component.
    pub components: Vec<&'static str>,
}

/// A path where the script may be.
pub struct CandidateView {
    pub base: Base,
    pub components: Seq<Seq<char>>,
}

impl View for Candidate {
    type V = CandidateView;

    open spec fn view(&self) -> CandidateView {
        CandidateView {
            base: self.base,
            components: self.components@.map_values(|c: &'static str| c@),
        }
    }
}

/// What candidates say.
pub open spec fn candidates_view(all: Seq<Candidate>) -> Seq<CandidateView> {
    all.map_values(|c: Candidate| c@)
}

/// Which of the places are known that the script can be looked for from.
#[derive(Clone, Copy, Debug, PartialEq, Eq, Structural)]
pub struct SidecarPlaces {
    /// `WHISPERX_SIDECAR_PATH` is set.
    pub env_override: bool,
    /// The executable's directory is known.
    pub exe_dir: bool,
    /// The executable's directory has a directory above it.
    pub app_root: bool,
    /// `CARGO_MANIFEST_DIR` is set.
    pub manifest_dir: bool,
    /// The manifest's directory has a directory two levels above it.
    pub workspace_root: bool,
}

/// The script in the directory `libremeet-sidecars` of a place.
pub open spec fn script_in(base: Base) -> CandidateView {
    CandidateView { base, components: seq!["libremeet-sidecars"@, "whisperx_diarize.py"@] }
}

/// The script among the resources of an application bundle.
pub open spec fn bundled_script() -> CandidateView {
    CandidateView {
        base: Base::AppRoot,
        components: seq!["Resources"@, "libremeet-sidecars"@, "whisperx_diarize.py"@],
    }
}

/// The paths where the script may be, in order of priority: the path in the
/// environment, the paths relative to the executable, and the workspace.
pub open spec fn script_candidates(p: SidecarPlaces) -> Seq<CandidateView> {
    let from_env = if p.env_override {
        seq![CandidateView { base: Base::EnvOverride, components: Seq::empty() }]
    } else {
        Seq::empty()
    };
    let from_bundle = if p.exe_dir && p.app_root {
        seq![script_in(Base::AppRoot), bundled_script()]
    } else {
        Seq::empty()
    };
    let from_exe = if p.exe_dir {
        seq![script_in(Base::ExeDir)]
    } else {
        Seq::empty()
    };
    let from_workspace = if p.manifest_dir {
        seq![
            script_in(
                if p.workspace_root {
                    Base::WorkspaceRoot
                } else {
                    Base::ManifestDir
                },
            ),
        ]
    } else {
        Seq::empty()
    };
    from_env + from_bundle + from_exe + from_workspace
}

fn candidate_in(base: Base) -> (r: Candidate)
    ensures
        r@ == script_in(base),
{
    let r = Candidate { base, components: vec!["libremeet-sidecars", "whisperx_diarize.py"] };
    proof {
        assert(r@.components =~= script_in(base).components);
    }
    r
}

/// The paths where the script may be, in order of priority.
pub fn sidecar_candidates(places: SidecarPlaces) -> (r: Vec<Candidate>)
    ensures
        candidates_view(r@) == script_candidates(places),
{
    let mut r: Vec<Candidate> = Vec::new();
    if places.env_override {
        let from_env = Candidate { base: Base::EnvOverride, components: Vec::new() };
        proof {
            assert(from_env@.components =~= Seq::<Seq<char>>::empty());
        }
        r.push(from_env);
    }
    if places.exe_dir {
        if places.app_root {
            r.push(candidate_in(Base::AppRoot));
            let bundled = Candidate {
                base: Base::AppRoot,
                components: vec!["Resources", "libremeet-sidecars", "whisperx_diarize.py"],
            };
            proof {
                assert(bundled@.components =~= bundled_script().components);
            }
            r.push(bundled);
        }
        r.push(candidate_in(Base::ExeDir));
    }
    if places.manifest_dir {
        let base: Base = if places.workspace_root {
            Base::WorkspaceRoot
        } else {
            Base::ManifestDir
        };
        r.push(candidate_in(base));
    }
    proof {
        assert(candidates_view(r@) =~= script_candidates(places));
    }
    r
}

/// The message where the script is nowhere.
pub open spec fn script_not_found() -> Seq<char> {
    "WhisperX sidecar script not found. Expected at libremeet-sidecars/whisperx_diarize.py or set WHISPERX_SIDECAR_PATH env var."@
}

/// Resolve the path to the WhisperX sidecar Python script: the first candidate
/// that is there. `found` says of each candidate whether it is.
pub fn resolve_sidecar_script(places: SidecarPlaces, found: &Vec<bool>) -> (r: Result<
    Candidate,
    String,
>)
    requires
        found@.len() == script_candidates(places).len(),
    ensures
        match r {
            Ok(c) => search::first_set(found@) matches Some(i) && c@ == script_candidates(
                places,
            )[i],
            Err(e) => search::first_set(found@) is None && e@ == script_not_found(),
        },
{
    let mut all = sidecar_candidates(places);
    proof {
        assert(candidates_view(all@).len() == all@.len());
    }
    match search::first(found) {
        Some(i) => {
            proof {
                assert(all@[i as int]@ == candidates_view(all@)[i as int]);
            }
            Ok(all.swap_remove(i))
        },
        None => Err(
            "WhisperX sidecar script not found. Expected at libremeet-sidecars/whisperx_diarize.py or set WHISPERX_SIDECAR_PATH env var.".to_owned(),
        ),
    }
}

/// Whether one place comes before another when the script is looked for.
pub open spec fn has_priority(a: Base, b: Base) -> bool {
    match (a, b) {
        (Base::EnvOverride, _) => b != Base::EnvOverride,
        (Base::AppRoot, Base::ExeDir) => true,
        (Base::AppRoot, Base::WorkspaceRoot) => true,
        (Base::AppRoot, Base::ManifestDir) => true,
        (Base::ExeDir, Base::WorkspaceRoot) => true,
        (Base::ExeDir, Base::ManifestDir) => true,
        _ => false,
    }
}

/// The path in the environment comes before those relative to the executable,
/// and those before the workspace.
pub proof fn candidates_stand_in_order(p: SidecarPlaces, i: int, j: int)
    requires
        0 <= i < script_candidates(p).len(),
        0 <= j < script_candidates(p).len(),
        has_priority(script_candidates(p)[i].base, script_candidates(p)[j].base),
    ensures
        i < j,
{
}

/// The path in the environment is used as it is. Every other path ends in the
/// script, in the directory `libremeet-sidecars`; only below the directory
/// above the executable's, `Resources` may come before that.
pub proof fn every_candidate_is_the_script(p: SidecarPlaces, i: int)
    requires
        0 <= i < script_candidates(p).len(),
    ensures
        ({
            let c = script_candidates(p)[i];
            let usual = seq!["libremeet-sidecars"@, "whisperx_diarize.py"@];
            &&& c.base == Base::EnvOverride ==> c.components.len() == 0
            &&& c.base != Base::EnvOverride ==> c.components == usual || (c.base == Base::AppRoot
                && c.components == seq!["Resources"@] + usual)
        }),
{
    assert(seq!["Resources"@] + seq!["libremeet-sidecars"@, "whisperx_diarize.py"@] =~= seq![
        "Resources"@,
        "libremeet-sidecars"@,
        "whisperx_diarize.py"@,
    ]);
}

/// Every place that is known is looked in, and no other: twice below the
/// directory above the executable's, and once elsewhere; the manifest's own
/// directory only where there is none two levels above it.
pub proof fn every_known_place_is_looked_in(p: SidecarPlaces, base: Base)
    ensures
        (exists|i: int|
            0 <= i < script_candidates(p).len() && (#[trigger] script_candidates(p)[i]).base == base)
            <==> match base {
            Base::EnvOverride => p.env_override,
            Base::AppRoot => p.exe_dir && p.app_root,
            Base::ExeDir => p.exe_dir,
            Base::WorkspaceRoot => p.manifest_dir && p.workspace_root,
            Base::ManifestDir => p.manifest_dir && !p.workspace_root,
        },
        p.exe_dir && p.app_root ==> script_candidates(p).contains(
            (CandidateView {
                base: Base::AppRoot,
                components: seq!["libremeet-sidecars"@, "whisperx_diarize.py"@],
            }),
        ) && script_candidates(p).contains(
            (CandidateView {
                base: Base::AppRoot,
                components: seq!["Resources"@, "libremeet-sidecars"@, "whisperx_diarize.py"@],
            }),
        ),
{
    let all = script_candidates(p);
    let a: int = if p.env_override {
        1
    } else {
        0
    };
    let b: int = if p.exe_dir && p.app_root {
        a + 2
    } else {
        a
    };
    let c: int = if p.exe_dir {
        b + 1
    } else {
        b
    };
    if p.env_override {
        assert(all[0].base == Base::EnvOverride);
    }
    if p.exe_dir && p.app_root {
        assert(all[a] == script_in(Base::AppRoot));
        assert(all[a + 1] == bundled_script());
    }
    if p.exe_dir {
        assert(all[b].base == Base::ExeDir);
    }
    if p.manifest_dir {
        assert(all[c].base == if p.workspace_root {
            Base::WorkspaceRoot
        } else {
            Base::ManifestDir
        });
    }
}

/// Candidates are seen as they are, each in its place, and none is left out.
pub proof fn all_candidates_are_seen(all: Seq<Candidate>)
    ensures
        candidates_view(all).len() == all.len(),
        forall|i: int|
            0 <= i < all.len() ==> {
                let c = #[trigger] candidates_view(all)[i];
                &&& c.base == all[i].base
                &&& c.components.len() == all[i].components@.len()
                &&& forall|j: int|
                    0 <= j < c.components.len() ==> #[trigger] c.components[j]
                        == all[i].components@[j]@
            },
{
}

} // verus!
