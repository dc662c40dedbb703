//! Completion over a hierarchical command namespace.
//!
//! Paths of the namespace are dot-delimited (`root.sub.action`). They are
//! offered to the line editor relative to the current position, with the dots
//! turned into single spaces.
use vstd::prelude::*;
use crate::text::{is_prefix, tail_from, texts, starts_with, tail_string, join_with};

verus! {

/// One path of the command namespace.
pub struct NamespaceEntry {
    /// The fully qualified, dot-delimited path, starting with the root's name.
    pub path: String,
    /// Whether the path names an invokable action.
    pub is_action: bool,
}

/// What the completers read of a command namespace: its structure and the
/// current position in it.
pub struct Namespace {
    pub root_name: String,
    /// The dot-delimited path of the current position.
    pub path: String,
    pub at_root: bool,
    pub entries: Vec<NamespaceEntry>,
}

/// The words of `s`: its `.`-separated parts that are not empty, in order.
pub open spec fn words(s: Seq<char>) -> Seq<Seq<char>>
    decreases s.len(),
{
    if s.len() == 0 {
        Seq::empty()
    } else {
        let w = words(s.drop_last());
        if s.last() == '.' {
            w
        } else if s.len() > 1 && s[s.len() - 2] != '.' {
            w.update(w.len() - 1, w.last().push(s.last()))
        } else {
            w.push(seq![s.last()])
        }
    }
}

/// The words `ws` joined by single spaces.
pub open spec fn joined(ws: Seq<Seq<char>>) -> Seq<char> {
    join_with(ws, ' ')
}

/// The words of `s` joined by single spaces.
pub open spec fn spaced(s: Seq<char>) -> Seq<char> {
    joined(words(s))
}

/// A part that ends in a letter other than `.` has a word.
proof fn lemma_words_nonempty(s: Seq<char>)
    requires
        s.len() > 0,
        s.last() != '.',
    ensures
        words(s).len() > 0,
    decreases s.len(),
{
    if s.len() > 1 && s[s.len() - 2] != '.' {
        let t = s.drop_last();
        assert(t.last() == s[s.len() - 2]);
        lemma_words_nonempty(t);
    }
}

/// Extending the last word extends the joined text.
proof fn lemma_joined_extend(ws: Seq<Seq<char>>, c: char)
    requires
        ws.len() > 0,
    ensures
        joined(ws.update(ws.len() - 1, ws.last().push(c))) == joined(ws).push(c),
{
    let u = ws.update(ws.len() - 1, ws.last().push(c));
    if ws.len() > 1 {
        assert(u.drop_last() =~= ws.drop_last());
        assert(joined(u) =~= joined(ws).push(c));
    }
}

/// The marker that completions carry at the root of the tree.
pub open spec fn root_marker(at_root: bool) -> Seq<char> {
    if at_root {
        seq!['.']
    } else {
        Seq::empty()
    }
}

/// `path` relative to the position `cpath`, space-delimited.
pub open spec fn spaced_path(path: Seq<char>, cpath: Seq<char>, at_root: bool) -> Seq<char> {
    root_marker(at_root) + spaced(tail_from(path, cpath.len() as int))
}

/// The space-delimited completions of all entries, in order.
pub open spec fn spaced_all(entries: Seq<NamespaceEntry>, cpath: Seq<char>, at_root: bool) -> Seq<
    Seq<char>,
> {
    entries.map_values(|e: NamespaceEntry| spaced_path(e@.0, cpath, at_root))
}

/// The completions offered for `line`: those that begin with it, cut at
/// `start`.
pub open spec fn completions(elems: Seq<Seq<char>>, line: Seq<char>, start: int) -> Seq<Seq<char>>
    decreases elems.len(),
{
    if elems.len() == 0 {
        Seq::empty()
    } else {
        let prev = completions(elems.drop_last(), line, start);
        if is_prefix(line, elems.last()) {
            prev.push(tail_from(elems.last(), start))
        } else {
            prev
        }
    }
}

/// The action entries, each as (match string, path below the root).
pub open spec fn action_matches(
    entries: Seq<NamespaceEntry>,
    root_name: Seq<char>,
    cpath: Seq<char>,
    at_root: bool,
) -> Seq<(Seq<char>, Seq<char>)>
    decreases entries.len(),
{
    if entries.len() == 0 {
        Seq::empty()
    } else {
        let prev = action_matches(entries.drop_last(), root_name, cpath, at_root);
        let e = entries.last();
        if e.is_action {
            prev.push(
                (
                    spaced_path(e.path@, cpath, at_root),
                    tail_from(e.path@, root_name.len() as int + 1),
                ),
            )
        } else {
            prev
        }
    }
}

/// The candidates for `line`: each action whose match string, followed by a
/// space, begins the line, as (path below the root, what follows that space).
pub open spec fn candidate_parts(actions: Seq<(Seq<char>, Seq<char>)>, line: Seq<char>) -> Seq<
    (Seq<char>, Seq<char>),
>
    decreases actions.len(),
{
    if actions.len() == 0 {
        Seq::empty()
    } else {
        let prev = candidate_parts(actions.drop_last(), line);
        let a = actions.last();
        if is_prefix(a.0.push(' '), line) {
            prev.push((a.1, tail_from(line, a.0.len() as int + 1)))
        } else {
            prev
        }
    }
}

impl View for NamespaceEntry {
    type V = (Seq<char>, bool);

    open spec fn view(&self) -> (Seq<char>, bool) {
        (self.path@, self.is_action)
    }
}

/// `prefix` followed by the words of `s` from position `from` on, joined by spaces.
fn spaced_from(prefix: &str, s: &str, from: usize) -> (r: String)
    ensures
        r@ == prefix@ + spaced(tail_from(s@, from as int)),
{
    let mut out = String::from_str(prefix);
    let n = s.unicode_len();
    if from > n {
        assert(out@ =~= prefix@ + spaced(Seq::<char>::empty()));
        return out;
    }
    let mut i: usize = from;
    // whether a word was written, and whether the previous letter belongs to it
    let mut emitted = false;
    let mut in_word = false;
    proof {
        reveal_strlit(" ");
        assert(s@.subrange(from as int, from as int) =~= Seq::<char>::empty());
    }
    while i < n
        invariant
            from <= i <= n,
            n == s@.len(),
            " "@ == seq![' '],
            out@ == prefix@ + joined(words(s@.subrange(from as int, i as int))),
            emitted == (words(s@.subrange(from as int, i as int)).len() > 0),
            in_word == (i > from && s@[i - 1] != '.'),
        decreases n - i,
    {
        let ghost done = s@.subrange(from as int, i as int);
        let ghost next = s@.subrange(from as int, i + 1);
        assert(next.drop_last() =~= done);
        assert(next.last() == s@[i as int]);
        let c = s.get_char(i);
        if c == '.' {
            in_word = false;
        } else {
            let ghost before = out@;
            proof {
                assert(s@.subrange(i as int, i + 1) =~= seq![c]);
                if in_word {
                    assert(next[next.len() - 2] == s@[i - 1]);
                    assert(done.last() == s@[i - 1]);
                    lemma_words_nonempty(done);
                    lemma_joined_extend(words(done), c);
                } else if i > from {
                    assert(next[next.len() - 2] == s@[i - 1]);
                }
            }
            if !in_word && emitted {
                out.append(" ");
            }
            out.append(s.substring_char(i, i + 1));
            proof {
                let w = words(done);
                if !in_word {
                    assert(words(next) == w.push(seq![c]));
                    if w.len() > 0 {
                        assert(w.push(seq![c]).drop_last() =~= w);
                        assert(out@ =~= prefix@ + joined(words(next)));
                    } else {
                        assert(out@ =~= prefix@ + joined(words(next)));
                    }
                } else {
                    assert(out@ =~= prefix@ + joined(words(next)));
                }
            }
            emitted = true;
            in_word = true;
        }
        i += 1;
    }
    out
}

/// The marker for the root as a string.
fn root_prefix(at_root: bool) -> (r: &'static str)
    ensures
        r@ == root_marker(at_root),
{
    proof {
        reveal_strlit(".");
        reveal_strlit("");
    }
    if at_root {
        "."
    } else {
        ""
    }
}

/// Offers every path of a namespace, space-delimited, for completion.
pub struct CmdTreeCompleter {
    space_separated_elements: Vec<String>,
}

impl CmdTreeCompleter {
    /// The space-delimited completions held.
    pub closed spec fn elements(&self) -> Seq<Seq<char>> {
        texts(self.space_separated_elements@)
    }

    /// Indexes every path of the namespace relative to the current position.
    pub fn build(cmdr: &Namespace) -> (r: Self)
        ensures
            r.elements() == spaced_all(cmdr.entries@, cmdr.path@, cmdr.at_root),
    {
        let prefix = root_prefix(cmdr.at_root);
        let cpath_len = cmdr.path.as_str().unicode_len();
        let mut elems: Vec<String> = Vec::new();
        let mut i: usize = 0;
        while i < cmdr.entries.len()
            invariant
                i <= cmdr.entries@.len(),
                cpath_len == cmdr.path@.len(),
                prefix@ == root_marker(cmdr.at_root),
                texts(elems@) =~= spaced_all(cmdr.entries@.subrange(0, i as int), cmdr.path@, cmdr.at_root),
            decreases cmdr.entries@.len() - i,
        {
            let s = spaced_from(prefix, cmdr.entries[i].path.as_str(), cpath_len);
            let ghost before = elems@;
            elems.push(s);
            proof {
                let sub = cmdr.entries@.subrange(0, i + 1);
                assert(sub.drop_last() =~= cmdr.entries@.subrange(0, i as int));
                assert(texts(elems@) =~= texts(before).push(s@));
                assert(spaced_all(sub, cmdr.path@, cmdr.at_root) =~= spaced_all(
                    sub.drop_last(),
                    cmdr.path@,
                    cmdr.at_root,
                ).push(spaced_path(cmdr.entries@[i as int].path@, cmdr.path@, cmdr.at_root)));
            }
            i += 1;
        }
        assert(cmdr.entries@.subrange(0, i as int) =~= cmdr.entries@);
        CmdTreeCompleter { space_separated_elements: elems }
    }

    /// The completions consistent with the typed `line`, each cut to what is
    /// left to write from `start`.
    pub fn complete(&self, word: &str, line: &str, start: usize) -> (r: Vec<String>)
        ensures
            texts(r@) == completions(self.elements(), line@, start as int),
    {
        let mut out: Vec<String> = Vec::new();
        let mut i: usize = 0;
        while i < self.space_separated_elements.len()
            invariant
                i <= self.space_separated_elements@.len(),
                texts(out@) =~= completions(
                    texts(self.space_separated_elements@).subrange(0, i as int),
                    line@,
                    start as int,
                ),
            decreases self.space_separated_elements@.len() - i,
        {
            let x = self.space_separated_elements[i].as_str();
            let ghost all = texts(self.space_separated_elements@);
            assert(all.subrange(0, i + 1).drop_last() =~= all.subrange(0, i as int));
            if starts_with(x, line) {
                out.push(tail_string(x, start));
            }
            i += 1;
        }
        assert(texts(self.space_separated_elements@).subrange(0, i as int) =~= texts(
            self.space_separated_elements@,
        ));
        out
    }
}

/// An action of the namespace: the text that selects it, and its path below
/// the root.
struct ActionMatch {
    match_str: String,
    qualified_path: String,
}

spec fn match_views(v: Seq<ActionMatch>) -> Seq<(Seq<char>, Seq<char>)> {
    v.map_values(|a: ActionMatch| (a.match_str@, a.qualified_path@))
}

/// An action that the typed line selects.
pub struct Candidate<'a> {
    /// The action's path below the root.
    pub qualified_path: &'a str,
    pub word: &'a str,
    /// What follows the action's name on the line.
    pub line: &'a str,
    pub word_start: usize,
}

/// Offers the actions of a namespace once the line names one unambiguously.
pub struct CmdTreeActionCompleter {
    action_elements: Vec<ActionMatch>,
}

impl CmdTreeActionCompleter {
    /// Each action held, as (match string, path below the root).
    pub closed spec fn actions(&self) -> Seq<(Seq<char>, Seq<char>)> {
        match_views(self.action_elements@)
    }

    /// Indexes the actions of the namespace relative to the current position.
    pub fn build(cmdr: &Namespace) -> (r: Self)
        ensures
            r.actions() == action_matches(cmdr.entries@, cmdr.root_name@, cmdr.path@, cmdr.at_root),
    {
        let prefix = root_prefix(cmdr.at_root);
        let cpath_len = cmdr.path.as_str().unicode_len();
        let root_len = cmdr.root_name.as_str().unicode_len();
        let mut elems: Vec<ActionMatch> = Vec::new();
        let mut i: usize = 0;
        while i < cmdr.entries.len()
            invariant
                i <= cmdr.entries@.len(),
                cpath_len == cmdr.path@.len(),
                root_len == cmdr.root_name@.len(),
                prefix@ == root_marker(cmdr.at_root),
                match_views(elems@)
                    =~= action_matches(
                    cmdr.entries@.subrange(0, i as int),
                    cmdr.root_name@,
                    cmdr.path@,
                    cmdr.at_root,
                ),
            decreases cmdr.entries@.len() - i,
        {
            let e = &cmdr.entries[i];
            let ghost before = elems@;
            let ghost sub = cmdr.entries@.subrange(0, i + 1);
            assert(sub.drop_last() =~= cmdr.entries@.subrange(0, i as int));
            assert(sub.last() == cmdr.entries@[i as int]);
            if e.is_action {
                let match_str = spaced_from(prefix, e.path.as_str(), cpath_len);
                let path_len = e.path.as_str().unicode_len();
                let qualified_path = if root_len < path_len {
                    tail_string(e.path.as_str(), root_len + 1)
                } else {
                    String::new()
                };
                elems.push(ActionMatch { match_str, qualified_path });
                assert(match_views(elems@)
                    =~= match_views(before).push(
                    (match_str@, qualified_path@),
                ));
            }
            i += 1;
        }
        assert(cmdr.entries@.subrange(0, i as int) =~= cmdr.entries@);
        CmdTreeActionCompleter { action_elements: elems }
    }

    /// The actions that `line` selects: those whose match string, followed by
    /// a space, begins the line. A shorter name thus never matches a line that
    /// types a longer name sharing its prefix.
    pub fn candidates<'a>(&'a self, word: &'a str, line: &'a str, start: usize) -> (r: Vec<
        Candidate<'a>,
    >)
        ensures
            r@.len() == candidate_parts(self.actions(), line@).len(),
            forall|k: int|
                0 <= k < r@.len() ==> {
                    &&& (#[trigger] r@[k]).qualified_path@ == candidate_parts(
                        self.actions(),
                        line@,
                    )[k].0
                    &&& r@[k].line@ == candidate_parts(self.actions(), line@)[k].1
                    &&& r@[k].word == word
                    &&& r@[k].word_start == start
                },
    {
        let line_len = line.unicode_len();
        let mut out: Vec<Candidate<'a>> = Vec::new();
        let mut i: usize = 0;
        proof {
            reveal_strlit(" ");
        }
        while i < self.action_elements.len()
            invariant
                i <= self.action_elements@.len(),
                line_len == line@.len(),
                " "@ == seq![' '],
                out@.len() == candidate_parts(self.actions().subrange(0, i as int), line@).len(),
                forall|k: int|
                    0 <= k < out@.len() ==> {
                        &&& (#[trigger] out@[k]).qualified_path@ == candidate_parts(
                            self.actions().subrange(0, i as int),
                            line@,
                        )[k].0
                        &&& out@[k].line@ == candidate_parts(
                            self.actions().subrange(0, i as int),
                            line@,
                        )[k].1
                        &&& out@[k].word == word
                        &&& out@[k].word_start == start
                    },
            decreases self.action_elements@.len() - i,
        {
            let ac = &self.action_elements[i];
            let ghost acts = self.actions();
            assert(acts.subrange(0, i + 1).drop_last() =~= acts.subrange(0, i as int));
            assert(acts[i as int] == (ac.match_str@, ac.qualified_path@));
            assert(acts.subrange(0, i + 1).last() == acts[i as int]);
            let m = ac.match_str.as_str().unicode_len();
            let hit = if starts_with(line, ac.match_str.as_str()) && m < line_len {
                line.get_char(m) == ' '
            } else {
                false
            };
            proof {
                let p = ac.match_str@.push(' ');
                if hit {
                    assert(line@.subrange(0, m as int) == ac.match_str@);
                    assert forall|k: int| 0 <= k < p.len() implies line@.subrange(0, p.len() as int)[k] == p[k] by {
                        if k < m {
                            assert(line@.subrange(0, m as int)[k] == ac.match_str@[k]);
                        }
                    }
                    assert(line@.subrange(0, p.len() as int) =~= p);
                } else if is_prefix(p, line@) {
                    assert(p.drop_last() =~= ac.match_str@);
                    assert(line@.subrange(0, m as int) =~= line@.subrange(0, p.len() as int).drop_last());
                    assert(line@.subrange(0, p.len() as int)[m as int] == line@[m as int]);
                    assert(p[m as int] == ' ');
                }
                assert(hit == is_prefix(p, line@));
            }
            if hit {
                let rest = line.substring_char(m + 1, line_len);
                out.push(
                    Candidate {
                        qualified_path: ac.qualified_path.as_str(),
                        word,
                        line: rest,
                        word_start: start,
                    },
                );
            }
            i += 1;
        }
        assert(self.actions().subrange(0, i as int) =~= self.actions());
        out
    }
}

} // verus!
