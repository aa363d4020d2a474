//! Dependency manifests: Make-rule-style text that a compiler writes beside
//! each artifact. A manifest is handed in as its lines; the functions here
//! say which target it belongs to and which archives or objects it lists.

use crate::text::{before_last, ends_with, same_text, seperate_path_makefile, starts_with};
use vstd::prelude::*;

verus! {

/// Why a manifest names no target.
#[derive(Debug, Clone, Copy, PartialEq, Eq)]
pub enum ManifestError {
    /// The manifest has no lines.
    Empty,
    /// The manifest's final line is blank.
    BlankFinalLine,
}

/// The line that closes a manifest written for the library target.
pub open spec fn library_entry() -> Seq<char> {
    "src/lib.rs:"@
}

/// How a line begins that lists the module every build of the crate itself
/// holds.
pub open spec fn internal_module() -> Seq<char> {
    "src/serial.rs:"@
}

/// How a line begins that belongs to the crate's own source listing.
pub open spec fn source_root() -> Seq<char> {
    "src"@
}

/// The lines of a manifest as character sequences.
pub open spec fn texts(lines: Seq<String>) -> Seq<Seq<char>> {
    lines.map_values(|l: String| l@)
}

/// Several manifests, each as its lines.
pub open spec fn manifest_texts(manifests: Seq<Vec<String>>) -> Seq<Seq<Seq<char>>> {
    manifests.map_values(|m: Vec<String>| texts(m@))
}

/// What is wrong with a manifest, if anything: it needs a final line, and
/// that line must not be blank.
pub open spec fn defect(lines: Seq<Seq<char>>) -> Option<ManifestError> {
    if lines.len() == 0 {
        Some(ManifestError::Empty)
    } else if lines.last().len() == 0 {
        Some(ManifestError::BlankFinalLine)
    } else {
        None
    }
}

/// A manifest belongs to the library target when its final line is the
/// library entry point.
pub open spec fn is_library(lines: Seq<Seq<char>>) -> bool {
    lines.len() > 0 && lines.last() == library_entry()
}

/// Holds of a line that lists the internal module.
pub open spec fn names_internal() -> spec_fn(Seq<char>) -> bool {
    |l: Seq<char>| internal_module().is_prefix_of(l)
}

/// How many lines of a manifest list the internal module.
pub open spec fn internal_mentions(lines: Seq<Seq<char>>) -> nat {
    lines.filter(names_internal()).len()
}

/// The first position at or after `from` whose line belongs to the source
/// listing; the number of lines where there is none.
pub open spec fn first_source_line(lines: Seq<Seq<char>>, from: int) -> int
    decreases lines.len() - from,
{
    if from < 0 || from >= lines.len() {
        lines.len() as int
    } else if source_root().is_prefix_of(lines[from]) {
        from
    } else {
        first_source_line(lines, from + 1)
    }
}

/// The path that a manifest line lists: the text before its last colon.
pub open spec fn line_path() -> spec_fn(Seq<char>) -> Seq<char> {
    |l: Seq<char>| before_last(l, ':')
}

/// Holds of a path that ends in `suffix`.
pub open spec fn ends_in(suffix: Seq<char>) -> spec_fn(Seq<char>) -> bool {
    |p: Seq<char>| suffix.is_suffix_of(p)
}

/// The paths listed before the source listing starts, in file order.
pub open spec fn inputs(lines: Seq<Seq<char>>) -> Seq<Seq<char>> {
    lines.take(first_source_line(lines, 0)).map_values(line_path())
}

/// Those inputs that end in `suffix`: each of them once, in file order.
pub open spec fn inputs_with_suffix(lines: Seq<Seq<char>>, suffix: Seq<char>) -> Seq<Seq<char>> {
    inputs(lines).filter(ends_in(suffix))
}

/// The archive candidates that one manifest contributes: its archive
/// inputs, where it belongs to the library target and none of its lines
/// lists the internal module. A manifest that lists the internal module is
/// a build of the crate itself and contributes nothing; so does a manifest
/// of another target.
pub open spec fn library_archives(lines: Seq<Seq<char>>) -> Seq<Seq<char>> {
    if is_library(lines) && internal_mentions(lines) == 0 {
        inputs_with_suffix(lines, ".a"@)
    } else {
        Seq::empty()
    }
}

/// The object candidates that one manifest contributes: its object inputs,
/// unless it belongs to the library target.
pub open spec fn program_objects(lines: Seq<Seq<char>>) -> Seq<Seq<char>> {
    if is_library(lines) {
        Seq::empty()
    } else {
        inputs_with_suffix(lines, ".o"@)
    }
}

/// The defect of the first manifest at or after `from` that has one.
pub open spec fn first_defect(manifests: Seq<Seq<Seq<char>>>, from: int) -> Option<ManifestError>
    decreases manifests.len() - from,
{
    if from < 0 || from >= manifests.len() {
        None
    } else if defect(manifests[from]) is Some {
        defect(manifests[from])
    } else {
        first_defect(manifests, from + 1)
    }
}

/// The archive candidates of all manifests, manifest after manifest.
pub open spec fn archives_of_all(manifests: Seq<Seq<Seq<char>>>) -> Seq<Seq<char>>
    decreases manifests.len(),
{
    if manifests.len() == 0 {
        Seq::empty()
    } else {
        archives_of_all(manifests.drop_last()) + library_archives(manifests.last())
    }
}

/// The object candidates of all manifests, manifest after manifest.
pub open spec fn objects_of_all(manifests: Seq<Seq<Seq<char>>>) -> Seq<Seq<char>>
    decreases manifests.len(),
{
    if manifests.len() == 0 {
        Seq::empty()
    } else {
        objects_of_all(manifests.drop_last()) + program_objects(manifests.last())
    }
}

/// The input lines of a manifest are exactly those before the first line of
/// the source listing.
pub proof fn lemma_first_source_line(lines: Seq<Seq<char>>, from: int)
    requires
        0 <= from <= lines.len(),
    ensures
        from <= first_source_line(lines, from) <= lines.len(),
        first_source_line(lines, from) < lines.len() ==> source_root().is_prefix_of(
            lines[first_source_line(lines, from)],
        ),
        forall|j: int|
            from <= j < first_source_line(lines, from) ==> !source_root().is_prefix_of(
                #[trigger] lines[j],
            ),
    decreases lines.len() - from,
{
    if from < lines.len() && !source_root().is_prefix_of(lines[from]) {
        lemma_first_source_line(lines, from + 1);
    }
}

/// Filtering one item more: what is kept of the first `i + 1` items is what
/// is kept of the first `i`, followed by the next item where it is kept.
pub proof fn lemma_filter_step<A>(s: Seq<A>, i: int, pred: spec_fn(A) -> bool)
    requires
        0 <= i < s.len(),
    ensures
        s.take(i + 1).filter(pred) == if pred(s[i]) {
            s.take(i).filter(pred).push(s[i])
        } else {
            s.take(i).filter(pred)
        },
{
    reveal(Seq::filter);
    assert(s.take(i + 1).drop_last() =~= s.take(i));
}

proof fn lemma_filter_none<A>(s: Seq<A>, pred: spec_fn(A) -> bool)
    requires
        forall|i: int| 0 <= i < s.len() ==> !pred(#[trigger] s[i]),
    ensures
        s.filter(pred).len() == 0,
    decreases s.len(),
{
    reveal(Seq::filter);
    if s.len() > 0 {
        let init = s.drop_last();
        assert forall|i: int| 0 <= i < init.len() implies !pred(#[trigger] init[i]) by {
            assert(init[i] == s[i]);
        }
        lemma_filter_none(init, pred);
    }
}

/// A manifest of the library target none of whose lines lists the internal
/// module contributes its archive inputs and nothing else: every input that
/// ends in `.a` is among them, and each of them is such an input.
pub proof fn lemma_library_manifest_gives_its_archives(lines: Seq<Seq<char>>)
    requires
        is_library(lines),
        forall|i: int|
            0 <= i < lines.len() ==> !internal_module().is_prefix_of(#[trigger] lines[i]),
    ensures
        library_archives(lines) == inputs_with_suffix(lines, ".a"@),
        forall|i: int|
            0 <= i < inputs(lines).len() && ".a"@.is_suffix_of(#[trigger] inputs(lines)[i])
                ==> library_archives(lines).contains(inputs(lines)[i]),
        forall|i: int|
            0 <= i < library_archives(lines).len() ==> {
                &&& ".a"@.is_suffix_of(#[trigger] library_archives(lines)[i])
                &&& inputs(lines).contains(library_archives(lines)[i])
            },
{
    lemma_filter_none(lines, names_internal());
    let all = inputs(lines);
    let wanted = ends_in(".a"@);
    let found = all.filter(wanted);
    assert forall|i: int| 0 <= i < all.len() && ".a"@.is_suffix_of(
        #[trigger] all[i],
    ) implies found.contains(all[i]) by {
        assert(wanted(all[i]));
        all.lemma_filter_contains(wanted, i);
    }
    assert forall|i: int| 0 <= i < found.len() implies ".a"@.is_suffix_of(#[trigger] found[i])
        && all.contains(found[i]) by {
        all.lemma_filter_pred(wanted, i);
        assert(found.contains(found[i]));
        all.lemma_filter_contains_rev(wanted, found[i]);
    }
}

/// The inputs with a suffix come in file order, each as often as it is
/// listed: those among the first `k + 1` inputs are those among the first
/// `k`, followed by the next input where it has the suffix.
pub proof fn lemma_inputs_with_suffix_in_file_order(
    lines: Seq<Seq<char>>,
    suffix: Seq<char>,
    k: int,
)
    requires
        0 <= k < inputs(lines).len(),
    ensures
        inputs(lines).take(k + 1).filter(ends_in(suffix)) == if suffix.is_suffix_of(
            inputs(lines)[k],
        ) {
            inputs(lines).take(k).filter(ends_in(suffix)).push(inputs(lines)[k])
        } else {
            inputs(lines).take(k).filter(ends_in(suffix))
        },
        inputs(lines).take(inputs(lines).len() as int).filter(ends_in(suffix))
            == inputs_with_suffix(lines, suffix),
{
    lemma_filter_step(inputs(lines), k, ends_in(suffix));
    assert(inputs(lines).take(inputs(lines).len() as int) =~= inputs(lines));
}

/// Whether the manifest belongs to the library target, or what is wrong
/// with it.
pub fn is_library_manifest(lines: &Vec<String>) -> (r: Result<bool, ManifestError>)
    ensures
        match r {
            Ok(b) => defect(texts(lines@)) is None && b == is_library(texts(lines@)),
            Err(e) => defect(texts(lines@)) == Some(e),
        },
{
    let n: usize = lines.len();
    if n == 0 {
        return Err(ManifestError::Empty);
    }
    let last = lines[n - 1].as_str();
    if last.unicode_len() == 0 {
        return Err(ManifestError::BlankFinalLine);
    }
    Ok(same_text(last, "src/lib.rs:"))
}

/// How many lines of the manifest list the internal module.
pub fn count_internal_mentions(lines: &Vec<String>) -> (n: usize)
    ensures
        n == internal_mentions(texts(lines@)),
{
    let ghost all = texts(lines@);
    let mut n: usize = 0;
    let mut i: usize = 0;
    proof {
        reveal(Seq::filter);
        assert(all.take(0).filter(names_internal()) =~= Seq::<Seq<char>>::empty());
    }
    while i < lines.len()
        invariant
            i <= lines.len(),
            n <= i,
            all == texts(lines@),
            n == all.take(i as int).filter(names_internal()).len(),
        decreases lines.len() - i,
    {
        proof {
            lemma_filter_step(all, i as int, names_internal());
        }
        if starts_with(lines[i].as_str(), "src/serial.rs:") {
            n += 1;
        }
        i += 1;
    }
    proof {
        assert(all.take(i as int) =~= all);
    }
    n
}

/// How many lines stand before the source listing.
pub fn input_count(lines: &Vec<String>) -> (n: usize)
    ensures
        n == first_source_line(texts(lines@), 0),
        n <= lines.len(),
{
    let ghost all = texts(lines@);
    let mut i: usize = 0;
    while i < lines.len()
        invariant
            i <= lines.len(),
            all == texts(lines@),
            first_source_line(all, 0) == first_source_line(all, i as int),
        decreases lines.len() - i,
    {
        if starts_with(lines[i].as_str(), "src") {
            return i;
        }
        i += 1;
    }
    i
}

/// The inputs of the manifest that end in `suffix`, in file order.
pub fn collect_inputs(lines: &Vec<String>, suffix: &str) -> (r: Vec<String>)
    ensures
        texts(r@) == inputs_with_suffix(texts(lines@), suffix@),
{
    let ghost all = texts(lines@);
    let n: usize = input_count(lines);
    let ghost paths = all.take(n as int).map_values(line_path());
    let mut out: Vec<String> = Vec::new();
    let mut i: usize = 0;
    proof {
        reveal(Seq::filter);
        assert(paths.take(0).filter(ends_in(suffix@)) =~= Seq::<Seq<char>>::empty());
        assert(texts(out@) =~= Seq::<Seq<char>>::empty());
    }
    while i < n
        invariant
            i <= n <= lines.len(),
            all == texts(lines@),
            paths == all.take(n as int).map_values(line_path()),
            texts(out@) == paths.take(i as int).filter(ends_in(suffix@)),
        decreases n - i,
    {
        proof {
            lemma_filter_step(paths, i as int, ends_in(suffix@));
        }
        let path = seperate_path_makefile(lines[i].as_str());
        if ends_with(path, suffix) {
            let ghost before = out@;
            out.push(String::from_str(path));
            proof {
                assert(texts(out@) =~= texts(before).push(path@));
            }
        }
        i += 1;
    }
    proof {
        assert(paths.take(n as int) =~= paths);
    }
    out
}

/// Appends a copy of every item to `out`.
pub fn append_all(out: &mut Vec<String>, items: &Vec<String>)
    ensures
        texts(final(out)@) == texts(old(out)@) + texts(items@),
{
    let mut i: usize = 0;
    proof {
        assert(texts(out@) =~= texts(old(out)@) + texts(items@).take(0));
    }
    while i < items.len()
        invariant
            i <= items.len(),
            texts(out@) == texts(old(out)@) + texts(items@).take(i as int),
        decreases items.len() - i,
    {
        let ghost before = out@;
        out.push(items[i].clone());
        proof {
            assert(texts(out@) =~= texts(before).push(items@[i as int]@));
            assert(texts(items@).take(i + 1) =~= texts(items@).take(i as int).push(
                items@[i as int]@,
            ));
        }
        i += 1;
    }
    proof {
        assert(texts(items@).take(i as int) =~= texts(items@));
    }
}

/// The archive candidates that one manifest contributes, or what is wrong
/// with the manifest.
pub fn manifest_archives(lines: &Vec<String>) -> (r: Result<Vec<String>, ManifestError>)
    ensures
        match r {
            Ok(v) => defect(texts(lines@)) is None && texts(v@) == library_archives(texts(lines@)),
            Err(e) => defect(texts(lines@)) == Some(e),
        },
{
    let library = match is_library_manifest(lines) {
        Ok(b) => b,
        Err(e) => {
            return Err(e);
        },
    };
    if library && count_internal_mentions(lines) == 0 {
        Ok(collect_inputs(lines, ".a"))
    } else {
        let out: Vec<String> = Vec::new();
        proof {
            assert(texts(out@) =~= Seq::<Seq<char>>::empty());
        }
        Ok(out)
    }
}

/// The object candidates that one manifest contributes, or what is wrong
/// with the manifest.
pub fn manifest_objects(lines: &Vec<String>) -> (r: Result<Vec<String>, ManifestError>)
    ensures
        match r {
            Ok(v) => defect(texts(lines@)) is None && texts(v@) == program_objects(texts(lines@)),
            Err(e) => defect(texts(lines@)) == Some(e),
        },
{
    let library = match is_library_manifest(lines) {
        Ok(b) => b,
        Err(e) => {
            return Err(e);
        },
    };
    if library {
        let out: Vec<String> = Vec::new();
        proof {
            assert(texts(out@) =~= Seq::<Seq<char>>::empty());
        }
        Ok(out)
    } else {
        Ok(collect_inputs(lines, ".o"))
    }
}

/// The archive candidates of all manifests, in the order of the manifests
/// and, within one, of its lines. Fails with the defect of the first
/// manifest that names no target.
pub fn candidate_archives(manifests: &Vec<Vec<String>>) -> (r: Result<Vec<String>, ManifestError>)
    ensures
        match r {
            Ok(v) => first_defect(manifest_texts(manifests@), 0) is None && texts(v@)
                == archives_of_all(manifest_texts(manifests@)),
            Err(e) => first_defect(manifest_texts(manifests@), 0) == Some(e),
        },
{
    let ghost all = manifest_texts(manifests@);
    let mut out: Vec<String> = Vec::new();
    let mut i: usize = 0;
    proof {
        assert(texts(out@) =~= Seq::<Seq<char>>::empty());
    }
    while i < manifests.len()
        invariant
            i <= manifests.len(),
            all == manifest_texts(manifests@),
            first_defect(all, 0) == first_defect(all, i as int),
            texts(out@) == archives_of_all(all.take(i as int)),
        decreases manifests.len() - i,
    {
        match manifest_archives(&manifests[i]) {
            Ok(found) => {
                append_all(&mut out, &found);
            },
            Err(e) => {
                return Err(e);
            },
        }
        proof {
            assert(all.take(i + 1).drop_last() =~= all.take(i as int));
        }
        i += 1;
    }
    proof {
        assert(all.take(i as int) =~= all);
    }
    Ok(out)
}

/// The object candidates of all manifests, in the order of the manifests
/// and, within one, of its lines. Fails with the defect of the first
/// manifest that names no target.
pub fn candidate_objects(manifests: &Vec<Vec<String>>) -> (r: Result<Vec<String>, ManifestError>)
    ensures
        match r {
            Ok(v) => first_defect(manifest_texts(manifests@), 0) is None && texts(v@)
                == objects_of_all(manifest_texts(manifests@)),
            Err(e) => first_defect(manifest_texts(manifests@), 0) == Some(e),
        },
{
    let ghost all = manifest_texts(manifests@);
    let mut out: Vec<String> = Vec::new();
    let mut i: usize = 0;
    proof {
        assert(texts(out@) =~= Seq::<Seq<char>>::empty());
    }
    while i < manifests.len()
        invariant
            i <= manifests.len(),
            all == manifest_texts(manifests@),
            first_defect(all, 0) == first_defect(all, i as int),
            texts(out@) == objects_of_all(all.take(i as int)),
        decreases manifests.len() - i,
    {
        match manifest_objects(&manifests[i]) {
            Ok(found) => {
                append_all(&mut out, &found);
            },
            Err(e) => {
                return Err(e);
            },
        }
        proof {
            assert(all.take(i + 1).drop_last() =~= all.take(i as int));
        }
        i += 1;
    }
    proof {
        assert(all.take(i as int) =~= all);
    }
    Ok(out)
}

} // verus!
