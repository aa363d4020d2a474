//! Text helpers over `&str`, specified on sequences of characters.

use vstd::prelude::*;

verus! {

/// Position of the last occurrence of `c` in `s`, or -1 where `s` holds none.
pub open spec fn last_index_of(s: Seq<char>, c: char) -> int
    decreases s.len(),
{
    if s.len() == 0 {
        -1
    } else if s.last() == c {
        s.len() - 1
    } else {
        last_index_of(s.drop_last(), c)
    }
}

/// What stands before the last occurrence of `c` in `s`; all of `s` where
/// `c` does not occur.
pub open spec fn before_last(s: Seq<char>, c: char) -> Seq<char> {
    let i = last_index_of(s, c);
    if i < 0 {
        s
    } else {
        s.subrange(0, i)
    }
}

/// `last_index_of` is a position of `c`, and `c` occurs nowhere behind it.
pub proof fn lemma_last_index_of(s: Seq<char>, c: char)
    ensures
        -1 <= last_index_of(s, c) < s.len(),
        last_index_of(s, c) >= 0 ==> s[last_index_of(s, c)] == c,
        forall|j: int| last_index_of(s, c) < j < s.len() ==> s[j] != c,
    decreases s.len(),
{
    if s.len() > 0 && s.last() != c {
        let t = s.drop_last();
        lemma_last_index_of(t, c);
        assert forall|j: int| last_index_of(s, c) < j < s.len() implies s[j] != c by {
            if j < t.len() {
                assert(t[j] == s[j]);
            }
        }
    }
}

/// The result of `before_last` is a prefix of `s` that ends just before an
/// occurrence of `c`, and nothing behind that occurrence is `c`; where `c`
/// does not occur the result is `s` itself.
pub proof fn lemma_before_last(s: Seq<char>, c: char)
    ensures
        before_last(s, c).is_prefix_of(s),
        !s.contains(c) ==> before_last(s, c) == s,
        s.contains(c) ==> {
            let n = before_last(s, c).len() as int;
            &&& n < s.len()
            &&& s[n] == c
            &&& forall|j: int| n < j < s.len() ==> s[j] != c
        },
{
    lemma_last_index_of(s, c);
    let i = last_index_of(s, c);
    if i < 0 {
        assert(s.subrange(0, s.len() as int) =~= s);
        assert(!s.contains(c));
    } else {
        assert(s.contains(c));
    }
}

/// The last position of `c` in `input`, counted in characters.
pub fn rfind_char(input: &str, c: char) -> (r: Option<usize>)
    ensures
        match r {
            Some(i) => i as int == last_index_of(input@, c),
            None => last_index_of(input@, c) == -1,
        },
{
    let n: usize = input.unicode_len();
    let mut i: usize = n;
    proof {
        assert(input@.subrange(0, n as int) =~= input@);
    }
    while i > 0
        invariant
            i <= n,
            n == input@.len(),
            last_index_of(input@, c) == last_index_of(input@.subrange(0, i as int), c),
        decreases i,
    {
        let ch = input.get_char(i - 1);
        if ch == c {
            return Some(i - 1);
        }
        proof {
            assert(input@.subrange(0, i as int).drop_last() =~= input@.subrange(0, i - 1));
        }
        i -= 1;
    }
    None
}

/// What stands before the last `c` in `input`; all of `input` where `c`
/// does not occur.
pub fn text_before_last(input: &str, c: char) -> (r: &str)
    ensures
        r@ == before_last(input@, c),
{
    match rfind_char(input, c) {
        Some(i) => {
            proof {
                lemma_last_index_of(input@, c);
            }
            input.substring_char(0, i)
        },
        None => input,
    }
}

/// The crate or module name of an artifact's file name: the text before the
/// last `-`, which sets off the hash that tells candidates apart. A name
/// without `-` is returned whole.
pub fn get_first_segment(input: &str) -> (r: &str)
    ensures
        r@ == before_last(input@, '-'),
{
    text_before_last(input, '-')
}

/// The path of a manifest line: the text before the last `:`. A line
/// without `:` is returned whole.
pub fn seperate_path_makefile(input: &str) -> (r: &str)
    ensures
        r@ == before_last(input@, ':'),
{
    text_before_last(input, ':')
}

/// Whether `s` begins with `prefix`.
pub fn starts_with(s: &str, prefix: &str) -> (r: bool)
    ensures
        r == prefix@.is_prefix_of(s@),
{
    let n: usize = s.unicode_len();
    let k: usize = prefix.unicode_len();
    if k > n {
        return false;
    }
    let mut i: usize = 0;
    while i < k
        invariant
            i <= k <= n,
            n == s@.len(),
            k == prefix@.len(),
            forall|j: int| 0 <= j < i ==> prefix@[j] == s@[j],
        decreases k - i,
    {
        if prefix.get_char(i) != s.get_char(i) {
            proof {
                assert(s@.subrange(0, k as int)[i as int] == s@[i as int]);
            }
            return false;
        }
        i += 1;
    }
    proof {
        assert(prefix@ =~= s@.subrange(0, k as int));
    }
    true
}

/// Whether `s` ends with `suffix`.
pub fn ends_with(s: &str, suffix: &str) -> (r: bool)
    ensures
        r == suffix@.is_suffix_of(s@),
{
    let n: usize = s.unicode_len();
    let k: usize = suffix.unicode_len();
    if k > n {
        return false;
    }
    let base: usize = n - k;
    let mut i: usize = 0;
    while i < k
        invariant
            i <= k <= n,
            base == n - k,
            n == s@.len(),
            k == suffix@.len(),
            forall|j: int| 0 <= j < i ==> suffix@[j] == s@[base + j],
        decreases k - i,
    {
        if suffix.get_char(i) != s.get_char(base + i) {
            proof {
                assert(s@.subrange(base as int, n as int)[i as int] == s@[base + i]);
            }
            return false;
        }
        i += 1;
    }
    proof {
        assert(suffix@ =~= s@.subrange(base as int, n as int));
    }
    true
}

/// Whether two texts hold the same characters.
pub fn same_text(a: &str, b: &str) -> (r: bool)
    ensures
        r == (a@ == b@),
{
    let n: usize = a.unicode_len();
    let k: usize = b.unicode_len();
    if n != k {
        return false;
    }
    let r = starts_with(a, b);
    proof {
        assert(a@.subrange(0, n as int) =~= a@);
    }
    r
}

} // verus!
