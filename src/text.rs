//! Small verified helpers on character sequences.
use vstd::prelude::*;

verus! {

/// `p` is a prefix of `s`.
pub open spec fn is_prefix(p: Seq<char>, s: Seq<char>) -> bool {
    p.len() <= s.len() && s.subrange(0, p.len() as int) == p
}

/// The characters of `s` from position `n` on; empty when `s` is shorter.
pub open spec fn tail_from(s: Seq<char>, n: int) -> Seq<char> {
    if 0 <= n <= s.len() {
        s.subrange(n, s.len() as int)
    } else {
        Seq::empty()
    }
}

/// The text of each string in `v`.
pub open spec fn texts(v: Seq<String>) -> Seq<Seq<char>> {
    v.map_values(|s: String| s@)
}

/// The parts `ws` with `sep` between each two of them.
pub open spec fn join_with(ws: Seq<Seq<char>>, sep: char) -> Seq<char>
    decreases ws.len(),
{
    if ws.len() == 0 {
        Seq::empty()
    } else if ws.len() == 1 {
        ws[0]
    } else {
        join_with(ws.drop_last(), sep) + seq![sep] + ws.last()
    }
}

/// The separator that stands before `x` when it is joined after `ws`.
pub open spec fn sep_before(ws: Seq<Seq<char>>, sep: char) -> Seq<char> {
    if ws.len() > 0 {
        seq![sep]
    } else {
        Seq::empty()
    }
}

/// Joining one more part appends the separator, if needed, and the part.
pub proof fn lemma_join_push(ws: Seq<Seq<char>>, x: Seq<char>, sep: char)
    ensures
        join_with(ws.push(x), sep) == join_with(ws, sep) + sep_before(ws, sep) + x,
{
    assert(ws.push(x).drop_last() =~= ws);
    if ws.len() == 0 {
        assert(join_with(ws.push(x), sep) =~= join_with(ws, sep) + sep_before(ws, sep) + x);
    }
}

/// Joining two lists of parts joins their joined texts.
pub proof fn lemma_join_concat(a: Seq<Seq<char>>, b: Seq<Seq<char>>, sep: char)
    ensures
        join_with(a + b, sep) == join_with(a, sep) + (if a.len() > 0 && b.len() > 0 {
            seq![sep]
        } else {
            Seq::<char>::empty()
        }) + join_with(b, sep),
    decreases b.len(),
{
    if b.len() == 0 {
        assert(a + b =~= a);
        assert(join_with(a + b, sep) =~= join_with(a, sep) + Seq::<char>::empty() + join_with(b, sep));
    } else {
        lemma_join_concat(a, b.drop_last(), sep);
        assert((a + b) =~= (a + b.drop_last()).push(b.last()));
        assert(b =~= b.drop_last().push(b.last()));
        lemma_join_push(a + b.drop_last(), b.last(), sep);
        lemma_join_push(b.drop_last(), b.last(), sep);
        assert(join_with(a + b, sep) =~= join_with(a, sep) + (if a.len() > 0 && b.len() > 0 {
            seq![sep]
        } else {
            Seq::<char>::empty()
        }) + join_with(b, sep));
    }
}

/// Whether `s` begins with `p`.
pub fn starts_with(s: &str, p: &str) -> (r: bool)
    ensures
        r == is_prefix(p@, s@),
{
    let n = s.unicode_len();
    let m = p.unicode_len();
    if m > n {
        return false;
    }
    let mut i: usize = 0;
    while i < m
        invariant
            m <= n,
            n == s@.len(),
            m == p@.len(),
            i <= m,
            forall|k: int| 0 <= k < i ==> s@[k] == p@[k],
        decreases m - i,
    {
        if s.get_char(i) != p.get_char(i) {
            assert(s@.subrange(0, m as int)[i as int] != p@[i as int]);
            return false;
        }
        i += 1;
    }
    assert(s@.subrange(0, m as int) =~= p@);
    true
}

/// Whether `a` and `b` hold the same characters.
pub fn str_eq(a: &str, b: &str) -> (r: bool)
    ensures
        r == (a@ == b@),
{
    if a.unicode_len() != b.unicode_len() {
        return false;
    }
    let r = starts_with(a, b);
    assert(a@.subrange(0, a@.len() as int) =~= a@);
    r
}

/// The characters of `s` from position `n` on, as an owned string.
pub fn tail_string(s: &str, n: usize) -> (r: String)
    ensures
        r@ == tail_from(s@, n as int),
{
    let len = s.unicode_len();
    if n <= len {
        String::from_str(s.substring_char(n, len))
    } else {
        String::new()
    }
}

} // verus!
