//! Accumulated source: the inputs accepted so far, per module, and the
//! program text generated from them on every turn.
use vstd::prelude::*;
use crate::text::{str_eq, join_with, sep_before, lemma_join_push, lemma_join_concat};

verus! {

/// An outside crate that an input declares.
pub struct CrateType {
    /// The declaration line inserted verbatim into the generated source.
    pub src_line: String,
    /// The crate's name in the dependency manifest.
    pub cargo_name: String,
}

/// One turn's accepted contribution to the program.
pub struct Input {
    /// The statement text.
    pub stmts: String,
    /// The outside crates this input declares.
    pub crates: Vec<CrateType>,
}

/// Whether a module's inputs define their own entry function.
#[derive(PartialEq, Eq, Structural, Clone, Copy, Debug)]
pub enum SourceFileType {
    /// The inputs define their own entry function: they are left untouched.
    Rs,
    /// The inputs are statements, wrapped in a synthesized entry function.
    Rscript,
}

/// A module of the accumulated program: its inputs in the order accepted.
pub struct SourceFile {
    pub file_name: String,
    pub file_type: SourceFileType,
    pub contents: Vec<Input>,
}

impl View for CrateType {
    type V = (Seq<char>, Seq<char>);

    /// (name, declaration line)
    open spec fn view(&self) -> (Seq<char>, Seq<char>) {
        (self.cargo_name@, self.src_line@)
    }
}

/// The declarations of a list of crates.
pub open spec fn crate_views(cs: Seq<CrateType>) -> Seq<(Seq<char>, Seq<char>)> {
    cs.map_values(|c: CrateType| c@)
}

/// The crates declared by a list of inputs, in order.
pub open spec fn input_crates(inputs: Seq<Input>) -> Seq<(Seq<char>, Seq<char>)>
    decreases inputs.len(),
{
    if inputs.len() == 0 {
        Seq::empty()
    } else {
        input_crates(inputs.drop_last()) + crate_views(inputs.last().crates@)
    }
}

/// The crates declared by all modules, in module order.
pub open spec fn all_crates(files: Seq<SourceFile>) -> Seq<(Seq<char>, Seq<char>)>
    decreases files.len(),
{
    if files.len() == 0 {
        Seq::empty()
    } else {
        all_crates(files.drop_last()) + input_crates(files.last().contents@)
    }
}

/// Some crate in `cs` has the name `name`.
pub open spec fn has_name(cs: Seq<(Seq<char>, Seq<char>)>, name: Seq<char>) -> bool {
    exists|k: int| 0 <= k < cs.len() && cs[k].0 == name
}

/// The crates of `cs`, keeping the first of each name.
pub open spec fn unique_crates(cs: Seq<(Seq<char>, Seq<char>)>) -> Seq<(Seq<char>, Seq<char>)>
    decreases cs.len(),
{
    if cs.len() == 0 {
        Seq::empty()
    } else {
        let prev = unique_crates(cs.drop_last());
        if has_name(prev, cs.last().0) {
            prev
        } else {
            prev.push(cs.last())
        }
    }
}

/// The declaration lines of the crates `cs`, one per line.
pub open spec fn decl_text(cs: Seq<(Seq<char>, Seq<char>)>) -> Seq<char> {
    join_with(cs.map_values(|c: (Seq<char>, Seq<char>)| c.1), '\n')
}

/// Each crate as an unpinned requirement of the manifest, one per line.
pub open spec fn requirement_text(cs: Seq<(Seq<char>, Seq<char>)>) -> Seq<char>
    decreases cs.len(),
{
    if cs.len() == 0 {
        Seq::empty()
    } else {
        requirement_text(cs.drop_last()) + cs.last().0 + seq![' ', '=', ' ', '"', '*', '"', '\n']
    }
}

/// The statement text of each input.
pub open spec fn stmt_lines(inputs: Seq<Input>) -> Seq<Seq<char>> {
    inputs.map_values(|i: Input| i.stmts@)
}

/// The statements of the inputs, in turn order, one per line.
pub open spec fn stmts_text(inputs: Seq<Input>) -> Seq<char> {
    join_with(stmt_lines(inputs), '\n')
}

/// A module's part of the entry source: its statements, wrapped in a
/// synthesized entry function with an indented body for a script module.
pub open spec fn file_body(f: SourceFile) -> Seq<char> {
    match f.file_type {
        SourceFileType::Rs => stmts_text(f.contents@),
        SourceFileType::Rscript => main_open() + stmts_text(f.contents@) + seq!['\n', '}'],
    }
}

/// The head of the synthesized entry function, up to its indented body.
pub open spec fn main_open() -> Seq<char> {
    seq!['f', 'n', ' ', 'm', 'a', 'i', 'n', '(', ')', ' ', '{', '\n', '\t']
}

/// The bodies of all modules, in module order, one after another on their
/// own lines.
pub open spec fn bodies_text(files: Seq<SourceFile>) -> Seq<char> {
    join_with(files.map_values(|f: SourceFile| file_body(f)), '\n')
}

/// The generated entry source: a newline, the declaration of each crate
/// (one per name) on its own line, a blank line, the modules' statements,
/// and a final newline.
pub open spec fn entry_source(files: Seq<SourceFile>) -> Seq<char> {
    seq!['\n'] + decl_text(unique_crates(all_crates(files))) + seq!['\n', '\n'] + bodies_text(files)
        + seq!['\n']
}

/// The head of the manifest, up to the package's name.
pub open spec fn manifest_head() -> Seq<char> {
    "[package]\nname = \""@
}

/// The manifest between the package's name and the requirements.
pub open spec fn manifest_mid() -> Seq<char> {
    "\"\nversion = \"0.1.0\"\n\n[dependencies]\n"@
}

/// The generated dependency manifest.
pub open spec fn manifest(name: Seq<char>, files: Seq<SourceFile>) -> Seq<char> {
    manifest_head() + name + manifest_mid() + requirement_text(unique_crates(all_crates(files)))
}

/// The declarations of a list of borrowed crates.
pub open spec fn ref_views(cs: Seq<&CrateType>) -> Seq<(Seq<char>, Seq<char>)> {
    cs.map_values(|c: &CrateType| c@)
}

/// Whether a crate in `seen` has the name `name`.
fn seen_name(seen: &Vec<&CrateType>, name: &str) -> (r: bool)
    ensures
        r == has_name(ref_views(seen@), name@),
{
    let mut i: usize = 0;
    while i < seen.len()
        invariant
            i <= seen@.len(),
            forall|k: int| 0 <= k < i ==> ref_views(seen@)[k].0 != name@,
        decreases seen@.len() - i,
    {
        if str_eq(seen[i].cargo_name.as_str(), name) {
            assert(ref_views(seen@)[i as int].0 == name@);
            return true;
        }
        i += 1;
    }
    false
}

/// The crates declared by all modules, the first of each name, in order.
fn unique_crate_list<'a>(files: &'a Vec<SourceFile>) -> (r: Vec<&'a CrateType>)
    ensures
        ref_views(r@) == unique_crates(all_crates(files@)),
{
    let mut seen: Vec<&'a CrateType> = Vec::new();
    let ghost mut done: Seq<(Seq<char>, Seq<char>)> = Seq::empty();
    let mut i: usize = 0;
    while i < files.len()
        invariant
            i <= files@.len(),
            done == all_crates(files@.subrange(0, i as int)),
            ref_views(seen@) == unique_crates(done),
        decreases files@.len() - i,
    {
        let f = &files[i];
        let ghost start = done;
        let mut j: usize = 0;
        while j < f.contents.len()
            invariant
                i < files@.len(),
                f == files@[i as int],
                j <= f.contents@.len(),
                done == start + input_crates(f.contents@.subrange(0, j as int)),
                ref_views(seen@) == unique_crates(done),
            decreases f.contents@.len() - j,
        {
            let input = &f.contents[j];
            let ghost mid = done;
            let mut k: usize = 0;
            while k < input.crates.len()
                invariant
                    j < f.contents@.len(),
                    input == f.contents@[j as int],
                    k <= input.crates@.len(),
                    done == mid + crate_views(input.crates@.subrange(0, k as int)),
                    ref_views(seen@) == unique_crates(done),
                decreases input.crates@.len() - k,
            {
                let c = &input.crates[k];
                let ghost next = done.push(c@);
                assert(next.drop_last() =~= done);
                if !seen_name(&seen, c.cargo_name.as_str()) {
                    seen.push(c);
                    assert(ref_views(seen@) =~= unique_crates(done).push(c@));
                }
                proof {
                    assert(crate_views(input.crates@.subrange(0, k + 1)) =~= crate_views(
                        input.crates@.subrange(0, k as int),
                    ).push(c@));
                    assert(mid + crate_views(input.crates@.subrange(0, k + 1)) =~= next);
                    done = next;
                }
                k += 1;
            }
            proof {
                let sub = f.contents@.subrange(0, j + 1);
                assert(sub.drop_last() =~= f.contents@.subrange(0, j as int));
                assert(input.crates@.subrange(0, k as int) =~= input.crates@);
                assert(input_crates(sub) == input_crates(sub.drop_last()) + crate_views(
                    input.crates@,
                ));
                assert(done =~= start + input_crates(sub));
            }
            j += 1;
        }
        proof {
            let sub = files@.subrange(0, i + 1);
            assert(sub.drop_last() =~= files@.subrange(0, i as int));
            assert(f.contents@.subrange(0, j as int) =~= f.contents@);
            assert(done =~= all_crates(sub));
        }
        i += 1;
    }
    assert(files@.subrange(0, i as int) =~= files@);
    seen
}

/// Appends the statements of `inputs`, one per line.
fn append_stmts(out: &mut String, inputs: &Vec<Input>)
    ensures
        final(out)@ == old(out)@ + stmts_text(inputs@),
{
    proof {
        reveal_strlit("\n");
    }
    let ghost lines = stmt_lines(inputs@);
    let mut i: usize = 0;
    while i < inputs.len()
        invariant
            i <= inputs@.len(),
            lines == stmt_lines(inputs@),
            "\n"@ == seq!['\n'],
            out@ == old(out)@ + join_with(lines.subrange(0, i as int), '\n'),
        decreases inputs@.len() - i,
    {
        if i > 0 {
            out.append("\n");
        }
        out.append(inputs[i].stmts.as_str());
        proof {
            let sub = lines.subrange(0, i as int);
            assert(lines.subrange(0, i + 1) =~= sub.push(lines[i as int]));
            lemma_join_push(sub, lines[i as int], '\n');
            assert(out@ =~= old(out)@ + join_with(lines.subrange(0, i + 1), '\n'));
        }
        i += 1;
    }
    assert(lines.subrange(0, i as int) =~= lines);
}

/// The generated entry source of the program made of `files`: a newline,
/// the declaration line of each crate (the first of each name) on its own
/// line, a blank line, then each module's statements, and a final newline.
pub fn main_contents(files: &Vec<SourceFile>) -> (r: String)
    ensures
        r@ == entry_source(files@),
{
    proof {
        reveal_strlit("\n");
        reveal_strlit("\n\n");
        reveal_strlit("\n}");
        reveal_strlit("fn main() {\n\t");
    }
    let crates = unique_crate_list(files);
    let ghost decls = ref_views(crates@).map_values(|c: (Seq<char>, Seq<char>)| c.1);
    let mut out = String::from_str("\n");
    let ghost head = out@;
    let mut i: usize = 0;
    while i < crates.len()
        invariant
            i <= crates@.len(),
            decls.len() == crates@.len(),
            forall|k: int| 0 <= k < crates@.len() ==> decls[k] == crates@[k].src_line@,
            "\n"@ == seq!['\n'],
            out@ == head + join_with(decls.subrange(0, i as int), '\n'),
        decreases crates@.len() - i,
    {
        if i > 0 {
            out.append("\n");
        }
        out.append(crates[i].src_line.as_str());
        proof {
            let sub = decls.subrange(0, i as int);
            assert(decls.subrange(0, i + 1) =~= sub.push(decls[i as int]));
            lemma_join_push(sub, decls[i as int], '\n');
            assert(out@ =~= head + join_with(decls.subrange(0, i + 1), '\n'));
        }
        i += 1;
    }
    assert(decls.subrange(0, i as int) =~= decls);
    out.append("\n\n");
    let ghost mid = out@;
    let ghost bodies = files@.map_values(|f: SourceFile| file_body(f));
    let mut i: usize = 0;
    while i < files.len()
        invariant
            i <= files@.len(),
            bodies == files@.map_values(|f: SourceFile| file_body(f)),
            "\n"@ == seq!['\n'],
            "\n}"@ == seq!['\n', '}'],
            "fn main() {\n\t"@ == main_open(),
            out@ == mid + join_with(bodies.subrange(0, i as int), '\n'),
        decreases files@.len() - i,
    {
        let f = &files[i];
        if i > 0 {
            out.append("\n");
        }
        let ghost before = out@;
        match f.file_type {
            SourceFileType::Rs => {
                append_stmts(&mut out, &f.contents);
            },
            SourceFileType::Rscript => {
                out.append("fn main() {\n\t");
                append_stmts(&mut out, &f.contents);
                out.append("\n}");
            },
        }
        proof {
            let sub = bodies.subrange(0, i as int);
            assert(out@ =~= before + file_body(files@[i as int]));
            assert(bodies.subrange(0, i + 1) =~= sub.push(bodies[i as int]));
            lemma_join_push(sub, bodies[i as int], '\n');
            assert(out@ =~= mid + join_with(bodies.subrange(0, i + 1), '\n'));
        }
        i += 1;
    }
    assert(bodies.subrange(0, i as int) =~= bodies);
    out.append("\n");
    assert(out@ =~= entry_source(files@));
    out
}

/// The generated dependency manifest of the package `name` made of `files`:
/// each crate (the first of each name) as an unpinned requirement.
pub fn cargotoml_contents(name: &str, files: &Vec<SourceFile>) -> (r: String)
    ensures
        r@ == manifest(name@, files@),
{
    proof {
        reveal_strlit(" = \"*\"\n");
    }
    let crates = unique_crate_list(files);
    let mut out = String::from_str("[package]\nname = \"");
    out.append(name);
    out.append("\"\nversion = \"0.1.0\"\n\n[dependencies]\n");
    let ghost head = out@;
    let mut i: usize = 0;
    while i < crates.len()
        invariant
            i <= crates@.len(),
            " = \"*\"\n"@ == seq![' ', '=', ' ', '"', '*', '"', '\n'],
            out@ == head + requirement_text(ref_views(crates@).subrange(0, i as int)),
        decreases crates@.len() - i,
    {
        out.append(crates[i].cargo_name.as_str());
        out.append(" = \"*\"\n");
        proof {
            let sub = ref_views(crates@).subrange(0, i + 1);
            assert(sub.drop_last() =~= ref_views(crates@).subrange(0, i as int));
            assert(out@ =~= head + requirement_text(sub));
        }
        i += 1;
    }
    assert(ref_views(crates@).subrange(0, i as int) =~= ref_views(crates@));
    assert(out@ =~= manifest(name@, files@));
    out
}

/// No two crates of `cs` share a name.
pub open spec fn names_distinct(cs: Seq<(Seq<char>, Seq<char>)>) -> bool {
    forall|i: int, j: int| 0 <= i < j < cs.len() ==> cs[i].0 != cs[j].0
}

proof fn lemma_unique_crates(cs: Seq<(Seq<char>, Seq<char>)>)
    ensures
        names_distinct(unique_crates(cs)),
        forall|k: int| 0 <= k < cs.len() ==> has_name(unique_crates(cs), #[trigger] cs[k].0),
        forall|k: int|
            0 <= k < unique_crates(cs).len() ==> has_name(cs, #[trigger] unique_crates(cs)[k].0),
    decreases cs.len(),
{
    if cs.len() > 0 {
        let prev = unique_crates(cs.drop_last());
        lemma_unique_crates(cs.drop_last());
        assert forall|k: int| 0 <= k < cs.len() implies has_name(unique_crates(cs), #[trigger] cs[k].0) by {
            if k < cs.len() - 1 {
                assert(cs.drop_last()[k] == cs[k]);
                let w = choose|w: int| 0 <= w < prev.len() && prev[w].0 == cs[k].0;
                if !has_name(prev, cs.last().0) {
                    assert(prev.push(cs.last())[w] == prev[w]);
                }
            } else if !has_name(prev, cs.last().0) {
                assert(prev.push(cs.last())[prev.len() as int] == cs.last());
            }
        }
        assert forall|k: int| 0 <= k < unique_crates(cs).len() implies has_name(cs, #[trigger] unique_crates(cs)[k].0) by {
            if k < prev.len() {
                assert(unique_crates(cs)[k] == prev[k]);
                let w = choose|w: int| 0 <= w < cs.drop_last().len() && cs.drop_last()[w].0 == prev[k].0;
                assert(cs[w] == cs.drop_last()[w]);
            } else {
                assert(cs[cs.len() - 1] == cs.last());
            }
        }
        if !has_name(prev, cs.last().0) {
            assert forall|i: int, j: int| 0 <= i < j < unique_crates(cs).len() implies
                unique_crates(cs)[i].0 != unique_crates(cs)[j].0 by {
                if j == prev.len() {
                    assert(unique_crates(cs)[i] == prev[i]);
                } else {
                    assert(unique_crates(cs)[i] == prev[i]);
                    assert(unique_crates(cs)[j] == prev[j]);
                }
            }
        }
    }
}

/// The generated entry source is the declaration of every crate that some
/// input declares, each name once, followed by each module's statements in
/// order; a single module of its own entry contributes its inputs'
/// statements in turn order.
pub proof fn entry_source_declares_each_crate_once(files: Seq<SourceFile>)
    ensures
        entry_source(files) == seq!['\n'] + decl_text(unique_crates(all_crates(files))) + seq![
            '\n',
            '\n',
        ] + bodies_text(files) + seq!['\n'],
        names_distinct(unique_crates(all_crates(files))),
        forall|k: int|
            0 <= k < all_crates(files).len() ==> has_name(
                unique_crates(all_crates(files)),
                #[trigger] all_crates(files)[k].0,
            ),
        forall|k: int|
            0 <= k < unique_crates(all_crates(files)).len() ==> has_name(
                all_crates(files),
                #[trigger] unique_crates(all_crates(files))[k].0,
            ),
        files.len() == 1 && files[0].file_type == SourceFileType::Rs ==> entry_source(files)
            == seq!['\n'] + decl_text(unique_crates(all_crates(files))) + seq!['\n', '\n']
            + stmts_text(files[0].contents@) + seq!['\n'],
{
    lemma_unique_crates(all_crates(files));
    if files.len() == 1 {
        let bodies = files.map_values(|f: SourceFile| file_body(f));
        assert(bodies.len() == 1);
        assert(bodies[0] == file_body(files[0]));
        assert(bodies_text(files) == file_body(files[0]));
    }
}

/// Inputs appended one after another contribute their statements, on lines
/// of their own, and their crates after those of the earlier inputs, in turn
/// order.
pub proof fn appended_inputs_concatenate(before: Seq<Input>, turns: Seq<Input>)
    ensures
        stmts_text(before + turns) == stmts_text(before) + (if before.len() > 0 && turns.len()
            > 0 {
            seq!['\n']
        } else {
            Seq::<char>::empty()
        }) + stmts_text(turns),
        input_crates(before + turns) == input_crates(before) + input_crates(turns),
    decreases turns.len(),
{
    assert(stmt_lines(before + turns) =~= stmt_lines(before) + stmt_lines(turns));
    lemma_join_concat(stmt_lines(before), stmt_lines(turns), '\n');
    if turns.len() == 0 {
        assert(before + turns =~= before);
        assert(input_crates(before) + input_crates(turns) =~= input_crates(before));
    } else {
        appended_inputs_concatenate(before, turns.drop_last());
        assert((before + turns).drop_last() =~= before + turns.drop_last());
        assert((before + turns).last() == turns.last());
        assert(input_crates(before + turns) =~= input_crates(before) + input_crates(turns));
    }
}

impl SourceFile {
    /// Adds an input at the end; nothing is validated.
    pub fn append(&mut self, input: Input)
        ensures
            final(self).contents@ == old(self).contents@.push(input),
            final(self).file_name == old(self).file_name,
            final(self).file_type == old(self).file_type,
    {
        self.contents.push(input);
    }

    /// Drops the latest input; nothing happens when there is none.
    pub fn rollback(&mut self)
        ensures
            final(self).contents@ == (if old(self).contents@.len() == 0 {
                old(self).contents@
            } else {
                old(self).contents@.drop_last()
            }),
            final(self).file_name == old(self).file_name,
            final(self).file_type == old(self).file_type,
    {
        if self.contents.len() > 0 {
            let _ = self.contents.pop();
            assert(self.contents@ =~= old(self).contents@.drop_last());
        }
    }
}

} // verus!
