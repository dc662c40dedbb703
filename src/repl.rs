//! The Read→Evaluate→Print state machine. Each phase is a type that carries
//! only the data valid for it, and each transition consumes the old phase.
//!
//! The outside work of a turn (running the command engine, writing the
//! compilation directory, compiling, loading and running the artifact) is
//! done by the caller between two transitions; the transitions decide what is
//! kept, what is rolled back and what is printed.
use vstd::prelude::*;
use crate::source::{
    SourceFile, Input, SourceFileType, main_contents, cargotoml_contents, entry_source, manifest,
    stmts_text, appended_inputs_concatenate,
};
use crossbeam::channel::{Receiver, RecvError};

verus! {

/// What was read.
pub enum InputResult {
    /// A line for the command namespace.
    Command(String),
    /// Accepted program input.
    Program(Input),
    /// An empty line.
    Empty,
    /// Input that goes on over more lines.
    More,
    /// Input that could not be read as program input, with the message.
    InputError(String),
    /// The end of input: the session ends.
    Eof,
}

/// A letter that only spaces the text.
pub open spec fn is_blank(c: char) -> bool {
    c == ' ' || c == '\t' || c == '\n' || c == '\r'
}

/// Where the first letter that is not blank stands; the length when there
/// is none.
pub open spec fn visible_start(s: Seq<char>) -> int
    decreases s.len(),
{
    if s.len() == 0 {
        0
    } else if !is_blank(s[0]) {
        0
    } else {
        1 + visible_start(s.drop_first())
    }
}

proof fn lemma_visible_start(s: Seq<char>, k: int)
    requires
        0 <= k <= s.len(),
        forall|j: int| 0 <= j < k ==> is_blank(#[trigger] s[j]),
        k == s.len() || !is_blank(s[k]),
    ensures
        visible_start(s) == k,
    decreases k,
{
    if k > 0 {
        let t = s.drop_first();
        assert forall|j: int| 0 <= j < k - 1 implies is_blank(#[trigger] t[j]) by {
            assert(t[j] == s[j + 1]);
        }
        if k < s.len() {
            assert(t[k - 1] == s[k]);
        }
        lemma_visible_start(t, k - 1);
        assert(is_blank(s[0]));
    }
}

/// Classifies a line that was read: a blank line is empty input; a line
/// whose first letter that is not blank is `.` is a command, the text after
/// that `.`; any other line is program input, declaring no crate.
pub fn classify(line: String) -> (r: InputResult)
    ensures
        ({
            let k = visible_start(line@);
            match r {
                InputResult::Empty => k == line@.len(),
                InputResult::Command(c) => k < line@.len() && line@[k] == '.' && c@ == line@.subrange(
                    k + 1,
                    line@.len() as int,
                ),
                InputResult::Program(i) => k < line@.len() && line@[k] != '.' && i.stmts@ == line@
                    && i.crates@.len() == 0,
                _ => false,
            }
        }),
{
    let n = line.as_str().unicode_len();
    let mut k: usize = 0;
    while k < n
        invariant
            k <= n,
            n == line@.len(),
            forall|j: int| 0 <= j < k ==> is_blank(#[trigger] line@[j]),
        ensures
            k <= n,
            forall|j: int| 0 <= j < k ==> is_blank(#[trigger] line@[j]),
            k == n || !is_blank(line@[k as int]),
        decreases n - k,
    {
        let c = line.as_str().get_char(k);
        if !(c == ' ' || c == '\t' || c == '\n' || c == '\r') {
            break;
        }
        k += 1;
    }
    proof {
        lemma_visible_start(line@, k as int);
    }
    if k == n {
        InputResult::Empty
    } else if line.as_str().get_char(k) == '.' {
        InputResult::Command(String::from_str(line.as_str().substring_char(k + 1, n)))
    } else {
        InputResult::Program(Input { stmts: line, crates: Vec::new() })
    }
}

/// The session ends.
#[derive(PartialEq, Eq, Structural, Clone, Copy, Debug)]
pub enum EvalSignal {
    Exit,
}

/// What the command engine made of a command line.
#[derive(PartialEq, Eq, Structural, Clone, Copy, Debug)]
pub enum CommandOutcome {
    /// The exit command: the session ends.
    Exit,
    /// The command cancelling pending multi-line input.
    CancelInput,
    /// Anything else; it prints nothing.
    Other,
}

/// How the outside work of a program turn ended.
pub enum ProgramOutcome {
    /// The compilation directory could not be written; the message.
    BuildFailed(String),
    /// The compiler failed; the message.
    CompileFailed(String),
    /// The artifact ran and returned this text.
    Executed(String),
    /// The artifact ran and signalled this failure.
    ExecutionFailed(String),
    /// Compiled; nothing was run, as the input added no statements.
    Compiled,
}

/// Whether the turn failed, which rolls its input back.
pub open spec fn is_failure(o: ProgramOutcome) -> bool {
    match o {
        ProgramOutcome::BuildFailed(_) | ProgramOutcome::CompileFailed(_)
        | ProgramOutcome::ExecutionFailed(_) => true,
        _ => false,
    }
}

/// The text printed for a program turn, and whether it is the output of an
/// execution.
pub open spec fn program_print(o: ProgramOutcome) -> (Seq<char>, bool) {
    match o {
        ProgramOutcome::BuildFailed(e) => ("failed to build compile directory: "@ + e@, false),
        ProgramOutcome::CompileFailed(e) => (e@, false),
        ProgramOutcome::Executed(s) => (s@, true),
        ProgramOutcome::ExecutionFailed(e) => (e@, false),
        ProgramOutcome::Compiled => (Seq::empty(), false),
    }
}

/// The inputs after a rollback: the latest one dropped, if any.
pub open spec fn rolled_back(c: Seq<Input>) -> Seq<Input> {
    if c.len() == 0 {
        c
    } else {
        c.drop_last()
    }
}

/// Per-session state.
pub struct ReplData {
    /// The modules of the program.
    pub files: Vec<SourceFile>,
    /// The module that input goes to.
    pub current_file: usize,
    /// Where the program is materialized and compiled.
    pub compilation_dir: String,
    /// Whether the artifact's output is captured and forwarded.
    pub redirect_on_execution: bool,
}

/// The inputs of each module.
pub open spec fn inputs_of(files: Seq<SourceFile>) -> Seq<Seq<Input>> {
    files.map_values(|f: SourceFile| f.contents@)
}

/// The name and kind of each module.
pub open spec fn shapes_of(files: Seq<SourceFile>) -> Seq<(Seq<char>, SourceFileType)> {
    files.map_values(|f: SourceFile| (f.file_name@, f.file_type))
}

impl ReplData {
    pub open spec fn wf(&self) -> bool {
        &&& self.current_file < self.files@.len()
    }

    /// A session with one module, named `name`, of kind `file_type`.
    pub fn new(name: String, file_type: SourceFileType, compilation_dir: String) -> (r: Self)
        ensures
            r.wf(),
            r.files@.len() == 1,
            r.files@[0].file_name == name,
            r.files@[0].file_type == file_type,
            r.files@[0].contents@ == Seq::<Input>::empty(),
            r.compilation_dir == compilation_dir,
            !r.redirect_on_execution,
    {
        let mut files: Vec<SourceFile> = Vec::new();
        files.push(SourceFile { file_name: name, file_type, contents: Vec::new() });
        ReplData {
            files,
            current_file: 0,
            compilation_dir,
            redirect_on_execution: false,
        }
    }

    /// Whether the state is well formed.
    pub fn is_wf(&self) -> (r: bool)
        ensures
            r == self.wf(),
    {
        self.current_file < self.files.len()
    }

    /// The module that input goes to.
    pub fn get_current_file(&self) -> (r: &SourceFile)
        requires
            self.wf(),
        ensures
            *r == self.files@[self.current_file as int],
    {
        &self.files[self.current_file]
    }

    /// Appends `input` to the current module.
    fn push_input(&mut self, input: Input)
        requires
            old(self).wf(),
        ensures
            final(self).wf(),
            final(self).current_file == old(self).current_file,
            final(self).compilation_dir == old(self).compilation_dir,
            final(self).redirect_on_execution == old(self).redirect_on_execution,
            shapes_of(final(self).files@) == shapes_of(old(self).files@),
            inputs_of(final(self).files@) == inputs_of(old(self).files@).update(
                old(self).current_file as int,
                old(self).files@[old(self).current_file as int].contents@.push(input),
            ),
    {
        let cur = self.current_file;
        let mut f = self.files.remove(cur);
        f.append(input);
        self.files.insert(cur, f);
        proof {
            assert(self.files@ =~= old(self).files@.update(cur as int, f));
            assert(shapes_of(self.files@) =~= shapes_of(old(self).files@));
            assert(inputs_of(self.files@) =~= inputs_of(old(self).files@).update(
                cur as int,
                old(self).files@[cur as int].contents@.push(input),
            ));
        }
    }

    /// Drops the latest input of the current module, if any.
    fn pop_input(&mut self)
        requires
            old(self).wf(),
        ensures
            final(self).wf(),
            final(self).current_file == old(self).current_file,
            final(self).compilation_dir == old(self).compilation_dir,
            final(self).redirect_on_execution == old(self).redirect_on_execution,
            shapes_of(final(self).files@) == shapes_of(old(self).files@),
            inputs_of(final(self).files@) == inputs_of(old(self).files@).update(
                old(self).current_file as int,
                rolled_back(old(self).files@[old(self).current_file as int].contents@),
            ),
    {
        let cur = self.current_file;
        let mut f = self.files.remove(cur);
        f.rollback();
        self.files.insert(cur, f);
        proof {
            assert(self.files@ =~= old(self).files@.update(cur as int, f));
            assert(shapes_of(self.files@) =~= shapes_of(old(self).files@));
            assert(inputs_of(self.files@) =~= inputs_of(old(self).files@).update(
                cur as int,
                f.contents@,
            ));
        }
    }

    /// The generated entry source of the program as it stands.
    pub fn entry_source(&self) -> (r: String)
        ensures
            r@ == entry_source(self.files@),
    {
        main_contents(&self.files)
    }

    /// The generated manifest of the program as it stands, under the
    /// current module's name.
    pub fn manifest(&self) -> (r: String)
        requires
            self.wf(),
        ensures
            r@ == manifest(self.files@[self.current_file as int].file_name@, self.files@),
    {
        cargotoml_contents(self.files[self.current_file].file_name.as_str(), &self.files)
    }
}

/// Rollback idempotence: appending a turn's input to the current module and
/// rolling it back after the turn failed leaves every module's inputs as they
/// were.
pub proof fn failed_turn_leaves_no_residue(inputs: Seq<Seq<Input>>, current: int, input: Input)
    requires
        0 <= current < inputs.len(),
    ensures
        ({
            let pushed = inputs.update(current, inputs[current].push(input));
            pushed.update(current, rolled_back(pushed[current])) == inputs
        }),
{
    let pushed = inputs.update(current, inputs[current].push(input));
    assert(rolled_back(pushed[current]) =~= inputs[current]);
    assert(pushed.update(current, rolled_back(pushed[current])) =~= inputs);
}

/// After N successful turns the current module holds its earlier inputs
/// followed by the turns' inputs in turn order, and its statements are the
/// earlier ones followed by each turn's, one per line. `states[k]` are the
/// inputs of each module (`inputs_of`) before turn `k`; a successful turn
/// appends its input to the current module, as `eval` and `finish` state.
pub proof fn successful_turns_append(
    states: Seq<Seq<Seq<Input>>>,
    current: int,
    turns: Seq<Input>,
)
    requires
        states.len() == turns.len() + 1,
        0 <= current < states[0].len(),
        forall|k: int|
            0 <= k < turns.len() ==> #[trigger] states[k + 1] == states[k].update(
                current,
                states[k][current].push(turns[k]),
            ),
    ensures
        states.last()[current] == states[0][current] + turns,
        stmts_text(states.last()[current]) == stmts_text(states[0][current]) + (if states[0][current].len()
            > 0 && turns.len() > 0 {
            seq!['\n']
        } else {
            Seq::<char>::empty()
        }) + stmts_text(turns),
    decreases turns.len(),
{
    if turns.len() == 0 {
        assert(states[0][current] + turns =~= states[0][current]);
    } else {
        let n = turns.len() - 1;
        let prefix = states.drop_last();
        assert forall|k: int| 0 <= k < turns.drop_last().len() implies #[trigger] prefix[k + 1]
            == prefix[k].update(current, prefix[k][current].push(turns.drop_last()[k])) by {
            assert(states[k + 1] == states[k].update(current, states[k][current].push(turns[k])));
        }
        successful_turns_append(prefix, current, turns.drop_last());
        assert(prefix.last() == states[n]);
        assert(states[n + 1] == states[n].update(current, states[n][current].push(turns[n])));
        assert(states.last() == states[n + 1]);
        assert(states[n].len() == states[0].len()) by {
            assert forall|k: int| 0 <= k <= n implies #[trigger] states[k].len() == states[0].len() by {
                lemma_state_len(states, current, turns, k);
            }
        }
        assert(states.last()[current] =~= states[0][current] + turns);
    }
    appended_inputs_concatenate(states[0][current], turns);
}

proof fn lemma_state_len(states: Seq<Seq<Seq<Input>>>, current: int, turns: Seq<Input>, k: int)
    requires
        states.len() == turns.len() + 1,
        0 <= k < states.len(),
        0 <= current < states[0].len(),
        forall|j: int|
            0 <= j < turns.len() ==> #[trigger] states[j + 1] == states[j].update(
                current,
                states[j][current].push(turns[j]),
            ),
    ensures
        states[k].len() == states[0].len(),
    decreases k,
{
    if k > 0 {
        lemma_state_len(states, current, turns, k - 1);
        assert(states[(k - 1) + 1] == states[k - 1].update(current, states[k - 1][current].push(turns[k - 1])));
    }
}

/// The Read phase.
pub struct Read;

/// The Evaluate phase: what was read.
pub struct Evaluate {
    pub result: InputResult,
}

/// The Print phase: the text to print, and whether it is the output of an
/// execution.
pub struct Print {
    pub to_print: String,
    pub as_out: bool,
}

/// The machine in one phase.
pub struct Repl<S> {
    pub state: S,
    pub data: ReplData,
    /// Whether input is pending over more lines.
    pub more: bool,
}

/// An evaluation that waits for outside work.
pub enum Evaluation {
    /// Nothing to do outside: ready to print.
    Done(Repl<Print>),
    /// The command engine is to run this line.
    Command(Commanding),
    /// The input was appended; the program is to be built, compiled and run.
    Program(Building),
}

/// A command line waiting for the command engine.
pub struct Commanding {
    pub line: String,
    pub data: ReplData,
    pub more: bool,
}

/// A program turn waiting for its build, compile and run.
pub struct Building {
    pub data: ReplData,
    pub more: bool,
    /// Whether the input added statements to run.
    pub has_stmts: bool,
}

impl Repl<Read> {
    /// A session in the Read phase.
    pub fn new(data: ReplData) -> (r: Self)
        ensures
            r.data == data,
            !r.more,
    {
        Repl { state: Read, data, more: false }
    }

    /// Hands what was read on to evaluation.
    pub fn read(self, result: InputResult) -> (r: Repl<Evaluate>)
        ensures
            r.state.result == result,
            r.data == self.data,
            r.more == (result is More),
    {
        let more = match result {
            InputResult::More => true,
            _ => false,
        };
        Repl { state: Evaluate { result }, data: self.data, more }
    }
}

impl Repl<Evaluate> {
    /// Evaluates what was read. A program input is appended to the current
    /// module, to be built, compiled and run; a command goes to the command
    /// engine; an input error is printed; the end of input ends the session;
    /// anything else prints nothing.
    pub fn eval(self) -> (r: Result<Evaluation, EvalSignal>)
        requires
            self.data.wf(),
        ensures
            (self.state.result is Eof) <==> r == Err::<Evaluation, EvalSignal>(EvalSignal::Exit),
            match self.state.result {
                InputResult::Command(line) => match r {
                    Ok(Evaluation::Command(c)) => c.line == line && c.data == self.data && c.more
                        == self.more,
                    _ => false,
                },
                InputResult::Program(input) => match r {
                    Ok(Evaluation::Program(b)) => {
                        &&& b.data.wf()
                        &&& b.more == self.more
                        &&& b.has_stmts == (input.stmts@.len() > 0)
                        &&& b.data.current_file == self.data.current_file
                        &&& b.data.compilation_dir == self.data.compilation_dir
                        &&& b.data.redirect_on_execution == self.data.redirect_on_execution
                        &&& shapes_of(b.data.files@) == shapes_of(self.data.files@)
                        &&& inputs_of(b.data.files@) == inputs_of(self.data.files@).update(
                            self.data.current_file as int,
                            self.data.files@[self.data.current_file as int].contents@.push(input),
                        )
                    },
                    _ => false,
                },
                InputResult::InputError(e) => match r {
                    Ok(Evaluation::Done(p)) => p.state.to_print == e && !p.state.as_out && p.data
                        == self.data && p.more == self.more,
                    _ => false,
                },
                InputResult::Eof => true,
                _ => match r {
                    Ok(Evaluation::Done(p)) => p.state.to_print@ == Seq::<char>::empty()
                        && !p.state.as_out && p.data == self.data && p.more == self.more,
                    _ => false,
                },
            },
    {
        let Repl { state, data, more } = self;
        match state.result {
            InputResult::Command(line) => Ok(Evaluation::Command(Commanding { line, data, more })),
            InputResult::Program(input) => {
                let has_stmts = input.stmts.as_str().unicode_len() > 0;
                let mut data = data;
                data.push_input(input);
                Ok(Evaluation::Program(Building { data, more, has_stmts }))
            },
            InputResult::InputError(e) => Ok(
                Evaluation::Done(
                    Repl { state: Print { to_print: e, as_out: false }, data, more },
                ),
            ),
            InputResult::Eof => Err(EvalSignal::Exit),
            _ => Ok(
                Evaluation::Done(
                    Repl { state: Print { to_print: String::new(), as_out: false }, data, more },
                ),
            ),
        }
    }
}

impl Commanding {
    /// Ends the command turn with what the command engine made of the line.
    /// Cancelling drops pending multi-line input; compiled state is kept.
    pub fn finish(self, outcome: CommandOutcome) -> (r: Result<Repl<Print>, EvalSignal>)
        ensures
            outcome == CommandOutcome::Exit <==> r == Err::<Repl<Print>, EvalSignal>(
                EvalSignal::Exit,
            ),
            match r {
                Ok(p) => {
                    &&& p.data == self.data
                    &&& p.more == (self.more && outcome != CommandOutcome::CancelInput)
                    &&& !p.state.as_out
                    &&& p.state.to_print@ == (if outcome == CommandOutcome::CancelInput {
                        "cancelled input"@
                    } else {
                        Seq::empty()
                    })
                },
                Err(_) => true,
            },
    {
        let Commanding { line, data, more } = self;
        match outcome {
            CommandOutcome::Exit => Err(EvalSignal::Exit),
            CommandOutcome::CancelInput => Ok(
                Repl {
                    state: Print { to_print: String::from_str("cancelled input"), as_out: false },
                    data,
                    more: false,
                },
            ),
            CommandOutcome::Other => Ok(
                Repl { state: Print { to_print: String::new(), as_out: false }, data, more },
            ),
        }
    }
}

impl Building {
    /// Ends the program turn with how its outside work went. A failed build,
    /// compile or execution rolls the turn's input back; the turn's input is
    /// otherwise kept. An input without statements is compiled but not run,
    /// and prints nothing.
    pub fn finish(self, outcome: ProgramOutcome) -> (r: Repl<Print>)
        requires
            self.data.wf(),
            !self.has_stmts ==> !(outcome is Executed || outcome is ExecutionFailed),
        ensures
            !self.has_stmts && !is_failure(outcome) ==> r.state.to_print@ == Seq::<char>::empty()
                && !r.state.as_out,
            r.data.wf(),
            r.more == self.more,
            r.data.current_file == self.data.current_file,
            r.data.compilation_dir == self.data.compilation_dir,
            r.data.redirect_on_execution == self.data.redirect_on_execution,
            shapes_of(r.data.files@) == shapes_of(self.data.files@),
            inputs_of(r.data.files@) == (if is_failure(outcome) {
                inputs_of(self.data.files@).update(
                    self.data.current_file as int,
                    rolled_back(self.data.files@[self.data.current_file as int].contents@),
                )
            } else {
                inputs_of(self.data.files@)
            }),
            (r.state.to_print@, r.state.as_out) == program_print(outcome),
    {
        let Building { data, more, has_stmts } = self;
        let mut data = data;
        let (to_print, as_out) = match outcome {
            ProgramOutcome::BuildFailed(e) => {
                data.pop_input();
                let mut s = String::from_str("failed to build compile directory: ");
                s.append(e.as_str());
                (s, false)
            },
            ProgramOutcome::CompileFailed(e) => {
                data.pop_input();
                (e, false)
            },
            ProgramOutcome::ExecutionFailed(e) => {
                data.pop_input();
                (e, false)
            },
            ProgramOutcome::Executed(s) => (s, true),
            ProgramOutcome::Compiled => (String::new(), false),
        };
        Repl { state: Print { to_print, as_out }, data, more }
    }
}

impl Repl<Print> {
    /// Ends the turn: the text to hand to the front-end, and the machine back
    /// in the Read phase.
    pub fn print(self) -> (r: (String, bool, Repl<Read>))
        ensures
            r.0 == self.state.to_print,
            r.1 == self.state.as_out,
            r.2.data == self.data,
            r.2.more == self.more,
    {
        let Repl { state, data, more } = self;
        (state.to_print, state.as_out, Repl { state: Read, data, more })
    }
}

/// crossbeam's channel receiver, carried through opaquely.
#[verifier::external_type_specification]
#[verifier::external_body]
#[verifier::reject_recursive_types(T)]
pub struct ExReceiver<T>(Receiver<T>);

/// crossbeam's error for a receive on a closed, empty channel.
#[verifier::external_type_specification]
#[verifier::external_body]
pub struct ExRecvError(RecvError);

/// The result of an evaluation, as a worker hands it over.
pub type EvalResult = Result<Repl<Print>, EvalSignal>;

/// Relies on crossbeam's `Receiver::is_empty`: whether no message waits in
/// the channel. What it returns depends on the worker's progress.
#[verifier::external_body]
fn channel_is_empty(rx: &Receiver<EvalResult>) -> (r: bool) {
    rx.is_empty()
}

/// Relies on crossbeam's `Receiver::recv`: blocks for the next message, or
/// fails once the channel is empty and its sender gone.
#[verifier::external_body]
fn channel_recv(rx: &Receiver<EvalResult>) -> (r: Result<EvalResult, RecvError>) {
    rx.recv()
}

/// The worker of an evaluation ended without handing over a result.
#[derive(PartialEq, Eq, Structural, Clone, Copy, Debug)]
pub struct WorkerLost;

/// An evaluation running on a worker thread, which hands its result over
/// through a single-slot channel.
pub struct Evaluating {
    jh: Receiver<EvalResult>,
}

impl Evaluating {
    /// Waits on `jh` for the worker's result.
    pub fn new(jh: Receiver<EvalResult>) -> (r: Self) {
        Evaluating { jh }
    }

    /// Whether the result has been handed over, so that `wait` returns at
    /// once.
    pub fn completed(&self) -> (r: bool) {
        !channel_is_empty(&self.jh)
    }

    /// Blocks for the worker's result.
    pub fn wait(self) -> (r: Result<EvalResult, WorkerLost>) {
        match channel_recv(&self.jh) {
            Ok(res) => Ok(res),
            Err(_) => Err(WorkerLost),
        }
    }
}

} // verus!
