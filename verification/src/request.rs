//! What is asked of the resolver: given where an artifact lies in the
//! compiler's output tree, either a duplicate output is to be removed or a
//! search is to be run.

use crate::text::{before_last, get_first_segment, same_text, starts_with};
use vstd::prelude::*;

verus! {

/// What the resolver reads of an artifact's path.
pub struct Artifact {
    /// The whole path, absolute.
    pub path: String,
    /// The path's last component.
    pub file_name: String,
    /// The name of the directory that holds the artifact.
    pub parent_name: String,
    /// The name of the directory that holds that directory; empty where
    /// there is none.
    pub grandparent_name: String,
}

/// An artifact's path as the model sees it.
pub struct ArtifactView {
    pub path: Seq<char>,
    pub file_name: Seq<char>,
    pub parent_name: Seq<char>,
    pub grandparent_name: Seq<char>,
}

impl View for Artifact {
    type V = ArtifactView;

    open spec fn view(&self) -> ArtifactView {
        ArtifactView {
            path: self.path@,
            file_name: self.file_name@,
            parent_name: self.parent_name@,
            grandparent_name: self.grandparent_name@,
        }
    }
}

/// What is to be done for an artifact.
#[derive(Debug, PartialEq, Eq)]
pub enum Request {
    /// The artifact is a duplicate output of the crate itself: remove it
    /// and its manifest, and produce no image.
    RemoveDuplicate { artifact: String, manifest: String },
    /// Search for a combination that links. Manifests of object candidates
    /// are those whose names begin with `prefix`.
    Resolve { prefix: String, in_deps: bool, debug: bool },
}

/// A request as the model sees it.
pub enum RequestView {
    RemoveDuplicate { artifact: Seq<char>, manifest: Seq<char> },
    Resolve { prefix: Seq<char>, in_deps: bool, debug: bool },
}

impl View for Request {
    type V = RequestView;

    open spec fn view(&self) -> RequestView {
        match self {
            Request::RemoveDuplicate { artifact, manifest } => RequestView::RemoveDuplicate {
                artifact: artifact@,
                manifest: manifest@,
            },
            Request::Resolve { prefix, in_deps, debug } => RequestView::Resolve {
                prefix: prefix@,
                in_deps: *in_deps,
                debug: *debug,
            },
        }
    }
}

/// Whether the artifact lies in the dependency-output directory.
pub open spec fn lies_in_deps(a: ArtifactView) -> bool {
    a.parent_name == "deps"@
}

/// Whether the artifact is a duplicate output of the crate itself: it lies
/// in the dependency-output directory and its name, up to the last `-`, is
/// the crate's.
pub open spec fn is_duplicate_output(a: ArtifactView, crate_name: Seq<char>) -> bool {
    lies_in_deps(a) && before_last(a.file_name, '-') == crate_name
}

/// Whether the artifact stems from a debug build: the profile's directory,
/// which holds the artifact itself or the dependency-output directory that
/// the artifact lies in, is named `debug`.
pub open spec fn built_for_debug(a: ArtifactView) -> bool {
    if lies_in_deps(a) {
        a.grandparent_name == "debug"@
    } else {
        a.parent_name == "debug"@
    }
}

/// What is to be done for an artifact.
///
/// A duplicate output is removed together with its manifest, which lies
/// beside it under the same name with `.d` appended. Anything else is
/// resolved: for an artifact in the dependency-output directory the object
/// candidates go by its whole file name, elsewhere by the name up to the
/// last `-`; the build's mode goes by the profile's directory.
pub open spec fn request_for(a: ArtifactView, crate_name: Seq<char>) -> RequestView {
    if is_duplicate_output(a, crate_name) {
        RequestView::RemoveDuplicate { artifact: a.path, manifest: a.path + ".d"@ }
    } else {
        RequestView::Resolve {
            prefix: if lies_in_deps(a) {
                a.file_name
            } else {
                before_last(a.file_name, '-')
            },
            in_deps: lies_in_deps(a),
            debug: built_for_debug(a),
        }
    }
}

/// The path made absolute: a path that does not begin with the working
/// directory is taken to lie below it.
pub fn absolute_path(path: &str, current_dir: &str) -> (r: String)
    ensures
        r@ == if current_dir@.is_prefix_of(path@) {
            path@
        } else {
            current_dir@ + "/"@ + path@
        },
{
    if starts_with(path, current_dir) {
        String::from_str(path)
    } else {
        String::from_str(current_dir).concat("/").concat(path)
    }
}

/// Whether the artifact stems from a debug build.
pub fn is_debug_build(artifact: &Artifact) -> (r: bool)
    ensures
        r == built_for_debug(artifact@),
{
    if same_text(artifact.parent_name.as_str(), "deps") {
        same_text(artifact.grandparent_name.as_str(), "debug")
    } else {
        same_text(artifact.parent_name.as_str(), "debug")
    }
}

/// Decides what is to be done for an artifact.
pub fn classify(artifact: &Artifact, crate_name: &str) -> (r: Request)
    ensures
        r@ == request_for(artifact@, crate_name@),
{
    let in_deps = same_text(artifact.parent_name.as_str(), "deps");
    let segment = get_first_segment(artifact.file_name.as_str());
    if in_deps && same_text(segment, crate_name) {
        Request::RemoveDuplicate {
            artifact: artifact.path.clone(),
            manifest: artifact.path.clone().concat(".d"),
        }
    } else {
        let prefix = if in_deps {
            artifact.file_name.clone()
        } else {
            String::from_str(segment)
        };
        Request::Resolve {
            prefix,
            in_deps,
            debug: is_debug_build(artifact),
        }
    }
}

} // verus!
