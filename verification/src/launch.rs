//! What the command line asks for: which build is meant, where its
//! artifact lies, and what the emulator is started with.

use crate::manifest::{append_all, texts};
use crate::text::{same_text, starts_with};
use vstd::prelude::*;

verus! {

/// Whether the arguments ask for a release build: `--release` stands among
/// those behind the program's name and the mode.
pub open spec fn asks_release(args: Seq<Seq<char>>) -> bool {
    exists|i: int| 2 <= i < args.len() && args[i] == "--release"@
}

/// The arguments behind the first `n`; none where there are not that many.
pub open spec fn behind(args: Seq<Seq<char>>, n: int) -> Seq<Seq<char>> {
    if 0 <= n <= args.len() {
        args.skip(n)
    } else {
        Seq::empty()
    }
}

/// The texts of a list that may be absent; an absent list holds nothing.
pub open spec fn texts_or_none(list: Option<Vec<String>>) -> Seq<Seq<char>> {
    match list {
        Some(items) => texts(items@),
        None => Seq::empty(),
    }
}

/// The arguments that the project adds for the emulator: those for tests
/// where the artifact's path, as it was given, begins with the working
/// directory, and those for an ordinary run elsewhere.
pub open spec fn project_arguments(
    path: Seq<char>,
    current_dir: Seq<char>,
    test_args: Option<Vec<String>>,
    run_args: Option<Vec<String>>,
) -> Seq<Seq<char>> {
    if current_dir.is_prefix_of(path) {
        texts_or_none(test_args)
    } else {
        texts_or_none(run_args)
    }
}

/// Whether the arguments ask for a release build.
pub fn is_release_build(args: &Vec<String>) -> (r: bool)
    ensures
        r == asks_release(texts(args@)),
{
    let mut i: usize = 2;
    while i < args.len()
        invariant
            2 <= i,
            forall|j: int| 2 <= j < i && j < args.len() ==> texts(args@)[j] != "--release"@,
        decreases args.len() - i,
    {
        if same_text(args[i].as_str(), "--release") {
            proof {
                assert(texts(args@)[i as int] == "--release"@);
            }
            return true;
        }
        i += 1;
    }
    false
}

/// Where the compiler leaves the crate's artifact, below the working
/// directory: `target`, the target's name, the profile, the crate's name.
pub fn artifact_path(target_name: &str, release: bool, crate_name: &str) -> (r: String)
    ensures
        r@ == "target/"@ + target_name@ + "/"@ + (if release {
            "release"@
        } else {
            "debug"@
        }) + "/"@ + crate_name@,
{
    let profile = if release {
        "release"
    } else {
        "debug"
    };
    String::from_str("target/").concat(target_name).concat("/").concat(profile).concat(
        "/",
    ).concat(crate_name)
}

/// The emulator's arguments: the image as a CD-ROM, then what the command
/// line holds behind the artifact's path, then what the project adds.
pub fn emulator_arguments(
    image: &str,
    args: &Vec<String>,
    path: &str,
    current_dir: &str,
    test_args: &Option<Vec<String>>,
    run_args: &Option<Vec<String>>,
) -> (r: Vec<String>)
    ensures
        texts(r@) == seq!["-cdrom"@, image@] + behind(texts(args@), 3) + project_arguments(
            path@,
            current_dir@,
            *test_args,
            *run_args,
        ),
{
    let mut out: Vec<String> = Vec::new();
    out.push(String::from_str("-cdrom"));
    out.push(String::from_str(image));
    let ghost head = seq!["-cdrom"@, image@];
    let ghost all = texts(args@);
    let mut i: usize = 3;
    proof {
        assert(texts(out@) =~= head);
        if args.len() >= 3 {
            assert(texts(out@) =~= head + all.subrange(3, 3));
        }
    }
    while i < args.len()
        invariant
            3 <= i,
            all == texts(args@),
            head == seq!["-cdrom"@, image@],
            args.len() < 3 ==> texts(out@) == head,
            args.len() >= 3 ==> i <= args.len() && texts(out@) == head + all.subrange(3, i as int),
        decreases args.len() - i,
    {
        let ghost before = out@;
        out.push(args[i].clone());
        proof {
            assert(texts(out@) =~= texts(before).push(all[i as int]));
            assert(all.subrange(3, i + 1) =~= all.subrange(3, i as int).push(all[i as int]));
        }
        i += 1;
    }
    proof {
        if args.len() >= 3 {
            assert(all.subrange(3, i as int) =~= all.skip(3));
        }
        assert(texts(out@) =~= head + behind(all, 3));
    }
    let extra = if starts_with(path, current_dir) {
        test_args
    } else {
        run_args
    };
    match extra {
        Some(items) => {
            append_all(&mut out, items);
        },
        None => {
            proof {
                assert(texts(out@) =~= texts(out@) + Seq::<Seq<char>>::empty());
            }
        },
    }
    out
}

} // verus!
