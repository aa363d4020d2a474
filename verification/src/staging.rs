//! What one attempt puts into the scratch directory: the candidates that a
//! pair of indices selects, and the steps that stage them.

use crate::manifest::{
    archives_of_all, candidate_archives, candidate_objects, first_defect, lemma_filter_step,
    manifest_texts, objects_of_all, texts, ManifestError,
};
use crate::text::{ends_with, starts_with};
use vstd::prelude::*;

verus! {

/// One step of staging, as the model sees it.
pub enum StageStep {
    /// Delete the scratch directory with all it holds, and create it anew.
    ResetScratch,
    /// Copy the archive at this path into the scratch directory and expand
    /// its members there.
    ExtractArchive(Seq<char>),
    /// Assemble the boot sources into the scratch directory, with debug
    /// information where the flag is set.
    AssembleBoot(bool),
    /// Copy the object at this path into the scratch directory.
    CopyObject(Seq<char>),
}

/// One step of staging, for the caller to carry out.
#[derive(Debug, PartialEq, Eq)]
pub enum StageOp {
    /// Delete the scratch directory with all it holds, and create it anew.
    ResetScratch,
    /// Copy the archive at this path into the scratch directory and expand
    /// its members there.
    ExtractArchive(String),
    /// Assemble the boot sources into the scratch directory, with debug
    /// information where the flag is set.
    AssembleBoot(bool),
    /// Copy the object at this path into the scratch directory.
    CopyObject(String),
}

impl View for StageOp {
    type V = StageStep;

    open spec fn view(&self) -> StageStep {
        match self {
            StageOp::ResetScratch => StageStep::ResetScratch,
            StageOp::ExtractArchive(path) => StageStep::ExtractArchive(path@),
            StageOp::AssembleBoot(debug) => StageStep::AssembleBoot(*debug),
            StageOp::CopyObject(path) => StageStep::CopyObject(path@),
        }
    }
}

/// The steps behind a vector of operations.
pub open spec fn steps_of(ops: Seq<StageOp>) -> Seq<StageStep> {
    ops.map_values(|op: StageOp| op@)
}

/// The candidate at `index`, where the list reaches that far.
pub open spec fn candidate_at(candidates: Seq<Seq<char>>, index: int) -> Option<Seq<char>> {
    if 0 <= index < candidates.len() {
        Some(candidates[index])
    } else {
        None
    }
}

/// The text of a path that may be absent.
pub open spec fn option_text(path: Option<String>) -> Option<Seq<char>> {
    match path {
        Some(p) => Some(p@),
        None => None,
    }
}

/// The steps of one attempt, in the order in which they are carried out:
/// the reset first, then the archive where one was selected, the boot
/// sources, and the object where one was selected.
pub open spec fn plan_steps(
    archive: Option<Seq<char>>,
    debug: bool,
    object: Option<Seq<char>>,
) -> Seq<StageStep> {
    let reset = seq![StageStep::ResetScratch];
    let with_archive = match archive {
        Some(a) => reset.push(StageStep::ExtractArchive(a)),
        None => reset,
    };
    let with_boot = with_archive.push(StageStep::AssembleBoot(debug));
    match object {
        Some(o) => with_boot.push(StageStep::CopyObject(o)),
        None => with_boot,
    }
}

/// A model of the scratch directory: the steps whose files it holds after
/// `steps` were carried out in order on a directory that held the files of
/// `before`. A reset leaves nothing; every other step adds its files.
pub open spec fn scratch_after(steps: Seq<StageStep>, before: Set<StageStep>) -> Set<StageStep>
    decreases steps.len(),
{
    if steps.len() == 0 {
        before
    } else {
        let earlier = scratch_after(steps.drop_last(), before);
        match steps.last() {
            StageStep::ResetScratch => Set::empty(),
            step => earlier.insert(step),
        }
    }
}

/// Holds of a file name that begins with `prefix` and ends with
/// `extension`.
pub open spec fn named_like(prefix: Seq<char>, extension: Seq<char>) -> spec_fn(Seq<char>) -> bool {
    |name: Seq<char>| prefix.is_prefix_of(name) && extension.is_suffix_of(name)
}

proof fn lemma_scratch_push(steps: Seq<StageStep>, step: StageStep, before: Set<StageStep>)
    ensures
        scratch_after(steps.push(step), before) == match step {
            StageStep::ResetScratch => Set::empty(),
            other => scratch_after(steps, before).insert(other),
        },
{
    assert(steps.push(step).drop_last() =~= steps);
}

/// In the model, what the scratch directory holds after the steps of an
/// attempt does not depend on what it held before: it holds the files of
/// that attempt's own steps and nothing else.
pub proof fn lemma_scratch_holds_one_attempt(
    archive: Option<Seq<char>>,
    debug: bool,
    object: Option<Seq<char>>,
    before: Set<StageStep>,
)
    ensures
        scratch_after(plan_steps(archive, debug, object), before) == scratch_after(
            plan_steps(archive, debug, object),
            Set::empty(),
        ),
        forall|step: StageStep|
            scratch_after(plan_steps(archive, debug, object), before).contains(step) ==> step
                != StageStep::ResetScratch && plan_steps(archive, debug, object).contains(step),
{
    let none = Set::<StageStep>::empty();
    let plan = plan_steps(archive, debug, object);
    let boot = StageStep::AssembleBoot(debug);
    let reset = seq![StageStep::ResetScratch];
    assert(reset =~= Seq::<StageStep>::empty().push(StageStep::ResetScratch));
    lemma_scratch_push(Seq::empty(), StageStep::ResetScratch, before);
    lemma_scratch_push(Seq::empty(), StageStep::ResetScratch, none);
    let with_archive = match archive {
        Some(a) => reset.push(StageStep::ExtractArchive(a)),
        None => reset,
    };
    if let Some(a) = archive {
        lemma_scratch_push(reset, StageStep::ExtractArchive(a), before);
        lemma_scratch_push(reset, StageStep::ExtractArchive(a), none);
    }
    let with_boot = with_archive.push(boot);
    lemma_scratch_push(with_archive, boot, before);
    lemma_scratch_push(with_archive, boot, none);
    if let Some(o) = object {
        lemma_scratch_push(with_boot, StageStep::CopyObject(o), before);
        lemma_scratch_push(with_boot, StageStep::CopyObject(o), none);
    }
    assert forall|step: StageStep| scratch_after(plan, before).contains(step) implies step
        != StageStep::ResetScratch && plan.contains(step) by {
        if archive is Some && step == StageStep::ExtractArchive(archive->0) {
            assert(plan[1] == step);
        } else if step == boot {
            assert(plan[with_archive.len() as int] == step);
        } else {
            assert(object is Some && step == StageStep::CopyObject(object->0));
            assert(plan[plan.len() - 1] == step);
        }
    }
}

/// Of the file names of a directory, in the order of its listing, those
/// that begin with `prefix` and end with `extension`, in that order.
pub fn get_files_with_extension_and_prefix(
    names: &Vec<String>,
    extension: &str,
    prefix: &str,
) -> (r: Vec<String>)
    ensures
        texts(r@) == texts(names@).filter(named_like(prefix@, extension@)),
{
    let ghost all = texts(names@);
    let ghost wanted = named_like(prefix@, extension@);
    let mut out: Vec<String> = Vec::new();
    let mut i: usize = 0;
    proof {
        reveal(Seq::filter);
        assert(all.take(0).filter(wanted) =~= Seq::<Seq<char>>::empty());
        assert(texts(out@) =~= Seq::<Seq<char>>::empty());
    }
    while i < names.len()
        invariant
            i <= names.len(),
            all == texts(names@),
            wanted == named_like(prefix@, extension@),
            texts(out@) == all.take(i as int).filter(wanted),
        decreases names.len() - i,
    {
        proof {
            lemma_filter_step(all, i as int, wanted);
        }
        let name = names[i].as_str();
        if starts_with(name, prefix) && ends_with(name, extension) {
            let ghost before = out@;
            out.push(names[i].clone());
            proof {
                assert(texts(out@) =~= texts(before).push(name@));
            }
        }
        i += 1;
    }
    proof {
        assert(all.take(i as int) =~= all);
    }
    out
}

/// The candidate at `index`, where the list reaches that far.
pub fn pick(candidates: &Vec<String>, index: usize) -> (r: Option<String>)
    ensures
        option_text(r) == candidate_at(texts(candidates@), index as int),
{
    if index < candidates.len() {
        Some(candidates[index].clone())
    } else {
        None
    }
}

/// The archive that `index` selects among the archive candidates of the
/// library target's manifests; `None` where there are not that many.
/// Fails with the defect of the first manifest that names no target.
pub fn get_lib(manifests: &Vec<Vec<String>>, index: usize) -> (r: Result<
    Option<String>,
    ManifestError,
>)
    ensures
        match r {
            Ok(found) => first_defect(manifest_texts(manifests@), 0) is None && option_text(found)
                == candidate_at(archives_of_all(manifest_texts(manifests@)), index as int),
            Err(e) => first_defect(manifest_texts(manifests@), 0) == Some(e),
        },
{
    match candidate_archives(manifests) {
        Ok(candidates) => Ok(pick(&candidates, index)),
        Err(e) => Err(e),
    }
}

/// The object that `index` selects among the object candidates of the
/// manifests that do not belong to the library target; `None` where there
/// are not that many. Fails with the defect of the first manifest that
/// names no target.
pub fn get_bin(manifests: &Vec<Vec<String>>, index: usize) -> (r: Result<
    Option<String>,
    ManifestError,
>)
    ensures
        match r {
            Ok(found) => first_defect(manifest_texts(manifests@), 0) is None && option_text(found)
                == candidate_at(objects_of_all(manifest_texts(manifests@)), index as int),
            Err(e) => first_defect(manifest_texts(manifests@), 0) == Some(e),
        },
{
    match candidate_objects(manifests) {
        Ok(candidates) => Ok(pick(&candidates, index)),
        Err(e) => Err(e),
    }
}

/// The steps that stage one attempt: the reset, the archive that
/// `lib_index` selects, the boot sources, the object that `index` selects.
/// The library target's manifests are read first; the call fails with the
/// defect of the first manifest, in that order, that names no target.
pub fn get_object(
    index: usize,
    lib_index: usize,
    library_manifests: &Vec<Vec<String>>,
    program_manifests: &Vec<Vec<String>>,
    debug: bool,
) -> (r: Result<Vec<StageOp>, ManifestError>)
    ensures
        match r {
            Ok(ops) => {
                &&& first_defect(manifest_texts(library_manifests@), 0) is None
                &&& first_defect(manifest_texts(program_manifests@), 0) is None
                &&& steps_of(ops@) == plan_steps(
                    candidate_at(
                        archives_of_all(manifest_texts(library_manifests@)),
                        lib_index as int,
                    ),
                    debug,
                    candidate_at(
                        objects_of_all(manifest_texts(program_manifests@)),
                        index as int,
                    ),
                )
            },
            Err(e) => if first_defect(manifest_texts(library_manifests@), 0) is Some {
                first_defect(manifest_texts(library_manifests@), 0) == Some(e)
            } else {
                first_defect(manifest_texts(program_manifests@), 0) == Some(e)
            },
        },
{
    let archive = match get_lib(library_manifests, lib_index) {
        Ok(found) => found,
        Err(e) => {
            return Err(e);
        },
    };
    let object = match get_bin(program_manifests, index) {
        Ok(found) => found,
        Err(e) => {
            return Err(e);
        },
    };
    let mut ops: Vec<StageOp> = Vec::new();
    ops.push(StageOp::ResetScratch);
    proof {
        assert(steps_of(ops@) =~= seq![StageStep::ResetScratch]);
    }
    match archive {
        Some(path) => {
            let ghost before = ops@;
            let op = StageOp::ExtractArchive(path);
            ops.push(op);
            proof {
                assert(steps_of(ops@) =~= steps_of(before).push(op@));
            }
        },
        None => {},
    }
    let ghost before_boot = ops@;
    ops.push(StageOp::AssembleBoot(debug));
    proof {
        assert(steps_of(ops@) =~= steps_of(before_boot).push(StageStep::AssembleBoot(debug)));
    }
    match object {
        Some(path) => {
            let ghost before = ops@;
            let op = StageOp::CopyObject(path);
            ops.push(op);
            proof {
                assert(steps_of(ops@) =~= steps_of(before).push(op@));
            }
        },
        None => {},
    }
    Ok(ops)
}

} // verus!
