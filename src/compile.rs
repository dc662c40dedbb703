//! Decisions around the outside compiler: where the artifact is expected,
//! what a finished compile yields, and a fresh identity for each artifact.
use vstd::prelude::*;
use crate::text::{is_prefix, tail_from, starts_with};
use vstd::set_lib::{set_int_range, lemma_int_range, lemma_len_subset};

verus! {

/// The compiled, loadable artifact.
pub struct Exe {
    path: String,
}

/// The compiler could not be started, or the compilation directory could not
/// be written. Fatal to the turn; the session goes on.
pub enum InitialisingError {
    /// The build command failed to start.
    NoBuildCommand,
    /// An IO error, with its message.
    IOError(String),
}

/// The compiler exited with a nonzero status.
#[derive(PartialEq, Eq, Structural, Clone, Copy, Debug)]
pub struct CompileError;

/// `<dir>/target/debug/<name>`, with `.exe` on Windows.
pub open spec fn artifact_path(dir: Seq<char>, name: Seq<char>, windows: bool) -> Seq<char> {
    dir + "/target/debug/"@ + name + (if windows { ".exe"@ } else { Seq::empty() })
}

impl Exe {
    pub closed spec fn spec_path(&self) -> Seq<char> {
        self.path@
    }

    /// The artifact that compiling the package `name` in `dir` is expected to
    /// produce.
    pub fn expected(dir: &str, name: &str, windows: bool) -> (r: Exe)
        ensures
            r.spec_path() == artifact_path(dir@, name@, windows),
    {
        let mut path = String::from_str(dir);
        path.append("/target/debug/");
        path.append(name);
        if windows {
            path.append(".exe");
        }
        proof {
            if !windows {
                assert(path@ =~= artifact_path(dir@, name@, windows));
            }
        }
        Exe { path }
    }

    /// The artifact's path.
    pub fn path(&self) -> (r: &str)
        ensures
            r@ == self.spec_path(),
    {
        self.path.as_str()
    }
}

/// What a finished compile yields: the artifact on a zero exit status, a
/// `CompileError` otherwise.
pub fn finish_compile(success: bool, exe: Exe) -> (r: Result<Exe, CompileError>)
    ensures
        success ==> r == Ok::<Exe, CompileError>(exe),
        !success ==> r == Err::<Exe, CompileError>(CompileError),
{
    if success {
        Ok(exe)
    } else {
        Err(CompileError)
    }
}

impl InitialisingError {
    /// The message shown for the error.
    pub fn message(&self) -> (r: String)
        ensures
            r@ == (match self {
                InitialisingError::NoBuildCommand =>
                    "cargo build command failed to start, is rust installed?"@,
                InitialisingError::IOError(e) => "io error occurred. "@ + e@,
            }),
    {
        match self {
            InitialisingError::NoBuildCommand => String::from_str(
                "cargo build command failed to start, is rust installed?",
            ),
            InitialisingError::IOError(e) => {
                let mut s = String::from_str("io error occurred. ");
                s.append(e.as_str());
                s
            },
        }
    }
}

impl CompileError {
    /// The message shown for the error.
    pub fn message(&self) -> (r: String)
        ensures
            r@ == "compilation failed"@,
    {
        String::from_str("compilation failed")
    }
}

/// `g` is the lowest generation that `on_disk` does not hold.
pub open spec fn lowest_free(on_disk: Seq<u64>, g: u64) -> bool {
    &&& !on_disk.contains(g)
    &&& forall|h: u64| h < g ==> on_disk.contains(h)
}

/// The name of each renamed artifact, up to its generation.
pub open spec fn artifact_prefix() -> Seq<char> {
    "papyrus.mem-code.lib."@
}

pub open spec fn is_digit(c: char) -> bool {
    '0' <= c <= '9'
}

/// The value of the decimal digits `d`.
pub open spec fn digits_value(d: Seq<char>) -> int
    decreases d.len(),
{
    if d.len() == 0 {
        0
    } else {
        digits_value(d.drop_last()) * 10 + ((d.last() as u32) as int - 48)
    }
}

/// `d` writes a number in decimal as it is printed: digits only, at least
/// one, and no leading zero.
pub open spec fn canonical_number(d: Seq<char>) -> bool {
    &&& d.len() > 0
    &&& forall|k: int| 0 <= k < d.len() ==> is_digit(#[trigger] d[k])
    &&& (d.len() == 1 || d[0] != '0')
}

/// `name` names the renamed artifact of a generation.
pub open spec fn names_generation(name: Seq<char>) -> bool {
    let rest = tail_from(name, artifact_prefix().len() as int);
    &&& is_prefix(artifact_prefix(), name)
    &&& canonical_number(rest)
    &&& digits_value(rest) <= u64::MAX
}

proof fn lemma_digits_grow(d: Seq<char>, k: int)
    requires
        0 <= k <= d.len(),
        forall|j: int| 0 <= j < d.len() ==> is_digit(#[trigger] d[j]),
    ensures
        0 <= digits_value(d.subrange(0, k)) <= digits_value(d),
    decreases d.len(),
{
    if d.len() > 0 {
        let t = d.drop_last();
        assert(is_digit(d[d.len() - 1]));
        if k == d.len() {
            assert(d.subrange(0, k) =~= d);
            lemma_digits_grow(t, t.len() as int);
            assert(t.subrange(0, t.len() as int) =~= t);
        } else {
            lemma_digits_grow(t, k);
            assert(t.subrange(0, k) =~= d.subrange(0, k));
        }
    }
}

/// The generation that the artifact file `name` was renamed for; `None` when
/// `name` is no such name.
pub fn generation_of(name: &str) -> (r: Option<u64>)
    ensures
        r is Some <==> names_generation(name@),
        match r {
            Some(g) => g as int == digits_value(tail_from(name@, artifact_prefix().len() as int)),
            None => true,
        },
{
    let prefix = "papyrus.mem-code.lib.";
    proof {
        reveal_strlit("papyrus.mem-code.lib.");
    }
    if !starts_with(name, prefix) {
        return None;
    }
    let p = prefix.unicode_len();
    let n = name.unicode_len();
    let ghost rest = name@.subrange(p as int, n as int);
    assert(rest == tail_from(name@, artifact_prefix().len() as int));
    if n == p {
        return None;
    }
    if n - p > 1 && name.get_char(p) == '0' {
        assert(rest[0] == '0');
        return None;
    }
    let mut acc: u128 = 0;
    let mut i: usize = p;
    assert(name@.subrange(p as int, p as int) =~= Seq::<char>::empty());
    while i < n
        invariant
            p <= i <= n,
            n == name@.len(),
            rest == name@.subrange(p as int, n as int),
            rest == tail_from(name@, artifact_prefix().len() as int),
            is_prefix(artifact_prefix(), name@),
            acc as int == digits_value(name@.subrange(p as int, i as int)),
            acc <= u64::MAX,
            forall|j: int| p <= j < i ==> is_digit(#[trigger] name@[j]),
        decreases n - i,
    {
        let c = name.get_char(i);
        if !('0' <= c && c <= '9') {
            assert(rest[i - p] == c);
            assert(!is_digit(rest[i - p]));
            assert(!canonical_number(rest));
            assert(!names_generation(name@));
            return None;
        }
        let d = (c as u32 - 48) as u128;
        let ghost next = name@.subrange(p as int, i + 1);
        assert(next.drop_last() =~= name@.subrange(p as int, i as int));
        assert(next.last() == c);
        acc = acc * 10 + d;
        assert(acc as int == digits_value(next));
        if acc > u64::MAX as u128 {
            proof {
                if forall|j: int| 0 <= j < rest.len() ==> is_digit(#[trigger] rest[j]) {
                    lemma_digits_grow(rest, i + 1 - p);
                    assert(rest.subrange(0, i + 1 - p) =~= next);
                    assert(digits_value(rest) >= digits_value(next));
                }
                assert(!names_generation(name@));
            }
            return None;
        }
        i += 1;
    }
    assert(name@.subrange(p as int, i as int) =~= rest);
    assert forall|k: int| 0 <= k < rest.len() implies is_digit(#[trigger] rest[k]) by {
        assert(rest[k] == name@[p + k]);
    }
    Some(acc as u64)
}

/// Whether `v` holds `x`.
fn holds(v: &Vec<u64>, x: u64) -> (r: bool)
    ensures
        r == v@.contains(x),
{
    let mut i: usize = 0;
    while i < v.len()
        invariant
            i <= v@.len(),
            forall|k: int| 0 <= k < i ==> v@[k] != x,
        decreases v@.len() - i,
    {
        if v[i] == x {
            return true;
        }
        i += 1;
    }
    false
}

/// Among `n + 1` distinct numbers, one is missing from a sequence of `n`.
proof fn lemma_one_missing(s: Seq<u64>, n: int)
    requires
        s.len() == n,
        n < u64::MAX,
    ensures
        exists|h: u64| h <= n && !s.contains(h),
{
    if forall|h: u64| h <= n ==> s.contains(h) {
        let ints = s.map_values(|x: u64| x as int);
        let range = set_int_range(0, n + 1);
        lemma_int_range(0, n + 1);
        assert forall|i: int| range.contains(i) implies ints.to_set().contains(i) by {
            let h = i as u64;
            assert(h as int == i);
            assert(s.contains(h));
            let k = choose|k: int| 0 <= k < s.len() && s[k] == h;
            assert(ints[k] == i);
        }
        ints.lemma_cardinality_of_set();
        lemma_len_subset(range, ints.to_set());
    }
}

/// The generation of a fresh artifact: the lowest one whose name is not on
/// disk, where `on_disk` are the generations of the artifacts found there.
/// `None` only when every generation is taken.
pub fn next_generation(on_disk: &Vec<u64>) -> (r: Option<u64>)
    ensures
        r is None <==> on_disk@.len() >= u64::MAX,
        match r {
            Some(g) => lowest_free(on_disk@, g),
            None => true,
        },
{
    if on_disk.len() as u128 >= u64::MAX as u128 {
        return None;
    }
    let ghost n = on_disk@.len();
    proof {
        lemma_one_missing(on_disk@, n as int);
    }
    let mut g: u64 = 0;
    loop
        invariant
            g <= n,
            n == on_disk@.len(),
            n < u64::MAX,
            exists|h: u64| h <= n && !on_disk@.contains(h) && g <= h,
            forall|h: u64| h < g ==> on_disk@.contains(h),
        ensures
            !on_disk@.contains(g),
            forall|h: u64| h < g ==> on_disk@.contains(h),
        decreases n - g,
    {
        if !holds(on_disk, g) {
            break;
        }
        g += 1;
    }
    Some(g)
}

/// Artifact uniqueness: while the artifacts loaded before stay on disk, a
/// fresh generation differs from each of theirs, so no two loaded artifacts
/// share a path.
pub proof fn artifact_generations_distinct(loaded: Seq<u64>, on_disk: Seq<u64>, g: u64)
    requires
        loaded.no_duplicates(),
        forall|k: int| 0 <= k < loaded.len() ==> on_disk.contains(#[trigger] loaded[k]),
        lowest_free(on_disk, g),
    ensures
        loaded.push(g).no_duplicates(),
        forall|k: int| 0 <= k < loaded.len() ==> loaded[k] != g,
{
    assert forall|i: int, j: int|
        0 <= i < j < loaded.push(g).len() implies loaded.push(g)[i] != loaded.push(g)[j] by {
        assert(loaded.push(g)[i] == loaded[i]);
        if j < loaded.len() {
            assert(loaded.push(g)[j] == loaded[j]);
        }
    }
}

} // verus!
