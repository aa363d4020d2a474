//! What the outside tools are given: which files of a directory listing
//! they work on, how their outputs are named, and their arguments.

use crate::manifest::{append_all, lemma_filter_step, texts};
use crate::text::{
    before_last, last_index_of, lemma_last_index_of, rfind_char, same_text, text_before_last,
};
use vstd::prelude::*;

verus! {

/// The extension of a file name: what follows its last `.`, where that `.`
/// is not the name's first character. The name `..` has none.
pub open spec fn extension_of(name: Seq<char>) -> Option<Seq<char>> {
    let dot = last_index_of(name, '.');
    if name == ".."@ || dot <= 0 {
        None
    } else {
        Some(name.subrange(dot + 1, name.len() as int))
    }
}

/// Holds of a file name whose extension is `extension`.
pub open spec fn with_extension(extension: Seq<char>) -> spec_fn(Seq<char>) -> bool {
    |name: Seq<char>| extension_of(name) == Some(extension)
}

/// The digit `d` as text.
pub open spec fn digit_text(d: nat) -> Seq<char> {
    if d == 0 {
        "0"@
    } else if d == 1 {
        "1"@
    } else if d == 2 {
        "2"@
    } else if d == 3 {
        "3"@
    } else if d == 4 {
        "4"@
    } else if d == 5 {
        "5"@
    } else if d == 6 {
        "6"@
    } else if d == 7 {
        "7"@
    } else if d == 8 {
        "8"@
    } else {
        "9"@
    }
}

/// The number `n` in decimal, without leading zeros.
pub open spec fn decimal(n: nat) -> Seq<char>
    decreases n,
{
    if n < 10 {
        digit_text(n)
    } else {
        decimal(n / 10) + digit_text(n % 10)
    }
}

proof fn lemma_digit_text(d: nat)
    requires
        d < 10,
    ensures
        digit_text(d).len() == 1,
        forall|e: nat| e < 10 && digit_text(e) == digit_text(d) ==> e == d,
{
    reveal_strlit("0");
    reveal_strlit("1");
    reveal_strlit("2");
    reveal_strlit("3");
    reveal_strlit("4");
    reveal_strlit("5");
    reveal_strlit("6");
    reveal_strlit("7");
    reveal_strlit("8");
    reveal_strlit("9");
    assert forall|e: nat| e < 10 && digit_text(e) == digit_text(d) implies e == d by {
        assert(digit_text(e)[0] == digit_text(d)[0]);
    }
}

proof fn lemma_decimal_shape(n: nat)
    ensures
        decimal(n).len() >= 1,
        n >= 10 ==> decimal(n).len() >= 2,
        n >= 10 ==> decimal(n).drop_last() == decimal(n / 10),
        n >= 10 ==> seq![decimal(n).last()] == digit_text(n % 10),
    decreases n,
{
    if n < 10 {
        lemma_digit_text(n);
    } else {
        lemma_decimal_shape(n / 10);
        lemma_digit_text(n % 10);
        assert(decimal(n).drop_last() =~= decimal(n / 10));
        assert(seq![decimal(n).last()] =~= digit_text(n % 10));
    }
}

/// Two numbers with the same decimal text are the same number.
pub proof fn lemma_decimal_injective(a: nat, b: nat)
    requires
        decimal(a) == decimal(b),
    ensures
        a == b,
    decreases a,
{
    lemma_decimal_shape(a);
    lemma_decimal_shape(b);
    if a < 10 && b < 10 {
        lemma_digit_text(a);
    } else if a < 10 {
        lemma_digit_text(a);
    } else if b < 10 {
        lemma_digit_text(b);
    } else {
        lemma_digit_text(a % 10);
        lemma_decimal_injective(a / 10, b / 10);
    }
}

/// Attempts with different numbers link into binaries with different
/// names.
pub proof fn lemma_binary_names_differ(a: nat, b: nat)
    requires
        a != b,
    ensures
        decimal(a) + ".bin"@ != decimal(b) + ".bin"@,
{
    let x = decimal(a) + ".bin"@;
    let y = decimal(b) + ".bin"@;
    if x == y {
        assert(decimal(a) =~= x.subrange(0, x.len() - ".bin"@.len()));
        assert(decimal(b) =~= y.subrange(0, y.len() - ".bin"@.len()));
        lemma_decimal_injective(a, b);
    }
}

/// A file name with an extension is its base name, a `.`, and the
/// extension: the text before the last `.` is the base name.
pub proof fn lemma_base_name(name: Seq<char>, extension: Seq<char>)
    requires
        extension_of(name) == Some(extension),
    ensures
        name == before_last(name, '.') + "."@ + extension,
{
    reveal_strlit(".");
    lemma_last_index_of(name, '.');
    let dot = last_index_of(name, '.');
    assert("."@ =~= seq!['.']);
    assert(name =~= name.subrange(0, dot) + seq!['.'] + name.subrange(dot + 1, name.len() as int));
}

/// Whether the file name has the extension.
pub fn has_extension(file_name: &str, extension: &str) -> (r: bool)
    ensures
        r == (extension_of(file_name@) == Some(extension@)),
{
    if same_text(file_name, "..") {
        return false;
    }
    match rfind_char(file_name, '.') {
        Some(dot) => {
            if dot == 0 {
                false
            } else {
                proof {
                    lemma_last_index_of(file_name@, '.');
                }
                let n: usize = file_name.unicode_len();
                same_text(file_name.substring_char(dot + 1, n), extension)
            }
        },
        None => false,
    }
}

/// Of the file names of a directory, in the order of its listing, those
/// with the extension, in that order.
pub fn files_with_extension(names: &Vec<String>, extension: &str) -> (r: Vec<String>)
    ensures
        texts(r@) == texts(names@).filter(with_extension(extension@)),
{
    let ghost all = texts(names@);
    let ghost wanted = with_extension(extension@);
    let mut out: Vec<String> = Vec::new();
    let mut i: usize = 0;
    proof {
        reveal(Seq::filter);
        assert(all.take(0).filter(wanted) =~= Seq::<Seq<char>>::empty());
        assert(texts(out@) =~= Seq::<Seq<char>>::empty());
    }
    while i < names.len()
        invariant
            i <= names.len(),
            all == texts(names@),
            wanted == with_extension(extension@),
            texts(out@) == all.take(i as int).filter(wanted),
        decreases names.len() - i,
    {
        proof {
            lemma_filter_step(all, i as int, wanted);
        }
        if has_extension(names[i].as_str(), extension) {
            let ghost before = out@;
            out.push(names[i].clone());
            proof {
                assert(texts(out@) =~= texts(before).push(names@[i as int]@));
            }
        }
        i += 1;
    }
    proof {
        assert(all.take(i as int) =~= all);
    }
    out
}

/// The name of the object that a boot source is assembled into: the
/// source's base name, which is its file name up to the last `.`, and
/// `.o`.
pub fn object_name(source_name: &str) -> (r: String)
    ensures
        r@ == before_last(source_name@, '.') + ".o"@,
{
    String::from_str(text_before_last(source_name, '.')).concat(".o")
}

/// The assembler's arguments for one boot source: the object format, the
/// source, the output, and the debug flag in a debug build.
pub fn assembler_arguments(source: &str, output: &str, debug: bool) -> (r: Vec<String>)
    ensures
        texts(r@) == if debug {
            seq!["-felf64"@, source@, "-o"@, output@, "-g"@]
        } else {
            seq!["-felf64"@, source@, "-o"@, output@]
        },
{
    let mut out: Vec<String> = Vec::new();
    out.push(String::from_str("-felf64"));
    out.push(String::from_str(source));
    out.push(String::from_str("-o"));
    out.push(String::from_str(output));
    if debug {
        out.push(String::from_str("-g"));
        proof {
            assert(texts(out@) =~= seq!["-felf64"@, source@, "-o"@, output@, "-g"@]);
        }
    } else {
        proof {
            assert(texts(out@) =~= seq!["-felf64"@, source@, "-o"@, output@]);
        }
    }
    out
}

/// The extraction tool's arguments for one archive.
pub fn extractor_arguments(archive: &str) -> (r: Vec<String>)
    ensures
        texts(r@) == seq!["x"@, archive@],
{
    let mut out: Vec<String> = Vec::new();
    out.push(String::from_str("x"));
    out.push(String::from_str(archive));
    proof {
        assert(texts(out@) =~= seq!["x"@, archive@]);
    }
    out
}

/// The linker's arguments: fixed layout, dead sections dropped, the binary
/// to write, the linker script, then every object in the order given.
pub fn linker_arguments(binary: &str, script: &str, objects: &Vec<String>) -> (r: Vec<String>)
    ensures
        texts(r@) == seq!["-n"@, "--gc-sections"@, "-o"@, binary@, "-T"@, script@] + texts(
            objects@,
        ),
{
    let mut out: Vec<String> = Vec::new();
    out.push(String::from_str("-n"));
    out.push(String::from_str("--gc-sections"));
    out.push(String::from_str("-o"));
    out.push(String::from_str(binary));
    out.push(String::from_str("-T"));
    out.push(String::from_str(script));
    proof {
        assert(texts(out@) =~= seq!["-n"@, "--gc-sections"@, "-o"@, binary@, "-T"@, script@]);
    }
    append_all(&mut out, objects);
    out
}

fn digit(d: u64) -> (r: &'static str)
    requires
        d < 10,
    ensures
        r@ == digit_text(d as nat),
{
    if d == 0 {
        "0"
    } else if d == 1 {
        "1"
    } else if d == 2 {
        "2"
    } else if d == 3 {
        "3"
    } else if d == 4 {
        "4"
    } else if d == 5 {
        "5"
    } else if d == 6 {
        "6"
    } else if d == 7 {
        "7"
    } else if d == 8 {
        "8"
    } else {
        "9"
    }
}

/// The number in decimal.
pub fn decimal_text(n: u64) -> (r: String)
    ensures
        r@ == decimal(n as nat),
    decreases n,
{
    if n < 10 {
        String::from_str(digit(n))
    } else {
        decimal_text(n / 10).concat(digit(n % 10))
    }
}

/// The file name of the binary that an attempt links: the attempt's number
/// and `.bin`, so that no two attempts write the same file.
pub fn binary_name(number: u64) -> (r: String)
    ensures
        r@ == decimal(number as nat) + ".bin"@,
{
    decimal_text(number).concat(".bin")
}

} // verus!
