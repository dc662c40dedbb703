use papyrus::compile::{finish_compile, generation_of, next_generation, CompileError, Exe, InitialisingError};
use papyrus::repl::{
    classify, CommandOutcome, EvalSignal, Evaluation, InputResult, ProgramOutcome, Read, Repl, ReplData,
};
use papyrus::source::{Input, SourceFileType};

fn program(stmts: &str) -> InputResult {
    InputResult::Program(Input { stmts: stmts.to_string(), crates: vec![] })
}

/// Runs one turn; `outcome` stands for the build, compile and run.
fn turn(
    repl: Repl<Read>,
    read: InputResult,
    outcome: impl FnOnce(&ReplData) -> ProgramOutcome,
) -> (String, bool, Repl<Read>) {
    match repl.read(read).eval() {
        Ok(Evaluation::Program(b)) => {
            let o = outcome(&b.data);
            b.finish(o).print()
        }
        Ok(Evaluation::Done(p)) => p.print(),
        _ => panic!("unexpected evaluation"),
    }
}

fn session() -> Repl<Read> {
    Repl::new(ReplData::new("lib".to_string(), SourceFileType::Rs, "dir".to_string()))
}

#[test]
fn end_to_end_turns_roll_back_failures() {
    let repl = session();
    let (out, as_out, repl) = turn(repl, program("let a = 1;"), |_| ProgramOutcome::Executed(String::new()));
    assert_eq!((out.as_str(), as_out), ("", true));
    let (out, as_out, repl) = turn(repl, program("a + 1"), |d| {
        assert_eq!(d.entry_source(), "\n\n\nlet a = 1;\na + 1\n");
        ProgramOutcome::Executed("2".to_string())
    });
    assert_eq!((out.as_str(), as_out), ("2", true));
    let (out, as_out, repl) = turn(repl, program("let b = ;"), |_| {
        ProgramOutcome::CompileFailed("compilation failed".to_string())
    });
    assert_eq!((out.as_str(), as_out), ("compilation failed", false));
    assert_eq!(repl.data.entry_source(), "\n\n\nlet a = 1;\na + 1\n");
    let (out, _, repl) = turn(repl, program("a + 2"), |d| {
        assert_eq!(d.entry_source(), "\n\n\nlet a = 1;\na + 1\na + 2\n");
        ProgramOutcome::Executed("3".to_string())
    });
    assert_eq!(out, "3");
    assert_eq!(repl.data.get_current_file().contents.len(), 3);
}

#[test]
fn rollback_after_failures_restores_source() {
    let repl = session();
    let (_, _, repl) = turn(repl, program("let x = 1;"), |_| ProgramOutcome::Compiled);
    let before = repl.data.entry_source();
    let (out, _, repl) = turn(repl, program("x +"), |_| ProgramOutcome::BuildFailed("disk full".to_string()));
    assert_eq!(out, "failed to build compile directory: disk full");
    assert_eq!(repl.data.entry_source(), before);
    let (out, as_out, repl) = turn(repl, program("panic!()"), |_| {
        ProgramOutcome::ExecutionFailed("runtime error!".to_string())
    });
    assert_eq!((out.as_str(), as_out), ("runtime error!", false));
    assert_eq!(repl.data.entry_source(), before);
    assert_eq!(repl.data.manifest(), "[package]\nname = \"lib\"\nversion = \"0.1.0\"\n\n[dependencies]\n");
}

#[test]
fn statements_flag_follows_input() {
    match session().read(program("")).eval() {
        Ok(Evaluation::Program(b)) => assert!(!b.has_stmts),
        _ => panic!("expected a program turn"),
    }
    match session().read(program("1")).eval() {
        Ok(Evaluation::Program(b)) => assert!(b.has_stmts),
        _ => panic!("expected a program turn"),
    }
}

#[test]
fn commands_and_other_inputs() {
    match session().read(InputResult::Command("exit".to_string())).eval() {
        Ok(Evaluation::Command(c)) => {
            assert_eq!(c.line, "exit");
            assert!(matches!(c.finish(CommandOutcome::Exit), Err(EvalSignal::Exit)));
        }
        _ => panic!("expected a command turn"),
    }
    match session().read(InputResult::Command("cancel".to_string())).eval() {
        Ok(Evaluation::Command(mut c)) => {
            c.more = true;
            let (out, as_out, next) = c.finish(CommandOutcome::CancelInput).ok().unwrap().print();
            assert_eq!((out.as_str(), as_out), ("cancelled input", false));
            assert!(!next.more);
        }
        _ => panic!("expected a command turn"),
    }
    match session().read(InputResult::Command("help".to_string())).eval() {
        Ok(Evaluation::Command(c)) => {
            let (out, _, _) = c.finish(CommandOutcome::Other).ok().unwrap().print();
            assert_eq!(out, "");
        }
        _ => panic!("expected a command turn"),
    }
    let (out, as_out, _) = turn(session(), InputResult::InputError("bad".to_string()), |_| {
        ProgramOutcome::Compiled
    });
    assert_eq!((out.as_str(), as_out), ("bad", false));
    let (out, _, _) = turn(session(), InputResult::Empty, |_| ProgramOutcome::Compiled);
    assert_eq!(out, "");
    assert!(matches!(session().read(InputResult::Eof).eval(), Err(EvalSignal::Exit)));
    assert!(session().read(InputResult::More).more);
}

#[test]
fn artifact_generations_are_unique() {
    assert_eq!(next_generation(&vec![0, 1]), Some(2));
    assert_eq!(next_generation(&vec![0, 1, 2]), Some(3));
    assert_eq!(next_generation(&vec![]), Some(0));
    assert_eq!(next_generation(&vec![1, 5]), Some(0));
    assert_eq!(next_generation(&vec![2, 0]), Some(1));
}

#[test]
fn artifact_names_give_their_generation() {
    assert_eq!(generation_of("papyrus.mem-code.lib.0"), Some(0));
    assert_eq!(generation_of("papyrus.mem-code.lib.42"), Some(42));
    assert_eq!(generation_of("papyrus.mem-code.lib.18446744073709551615"), Some(u64::MAX));
    assert_eq!(generation_of("papyrus.mem-code.lib.18446744073709551616"), None);
    assert_eq!(generation_of("papyrus.mem-code.lib.07"), None);
    assert_eq!(generation_of("papyrus.mem-code.lib."), None);
    assert_eq!(generation_of("papyrus.mem-code.lib.4x"), None);
    assert_eq!(generation_of("mem-code"), None);
}

#[test]
fn lines_are_classified() {
    assert!(matches!(classify("  \t".to_string()), InputResult::Empty));
    assert!(matches!(classify(String::new()), InputResult::Empty));
    match classify("  .help me".to_string()) {
        InputResult::Command(c) => assert_eq!(c, "help me"),
        _ => panic!("expected a command"),
    }
    match classify("let a = 1;".to_string()) {
        InputResult::Program(i) => {
            assert_eq!(i.stmts, "let a = 1;");
            assert!(i.crates.is_empty());
        }
        _ => panic!("expected program input"),
    }
}

#[test]
fn input_without_statements_prints_nothing() {
    match session().read(program("")).eval() {
        Ok(Evaluation::Program(b)) => {
            let (out, as_out, repl) = b.finish(ProgramOutcome::Compiled).print();
            assert_eq!((out.as_str(), as_out), ("", false));
            assert_eq!(repl.data.get_current_file().contents.len(), 1);
        }
        _ => panic!("expected a program turn"),
    }
}

#[test]
fn compile_results_and_messages() {
    let exe = Exe::expected("dir", "test-name", false);
    assert_eq!(exe.path(), "dir/target/debug/test-name");
    assert_eq!(Exe::expected("d", "n", true).path(), "d/target/debug/n.exe");
    assert_eq!(finish_compile(true, exe).ok().unwrap().path(), "dir/target/debug/test-name");
    assert!(finish_compile(false, Exe::expected("d", "n", false)).err() == Some(CompileError));
    assert_eq!(CompileError.message(), "compilation failed");
    assert_eq!(
        InitialisingError::NoBuildCommand.message(),
        "cargo build command failed to start, is rust installed?"
    );
    assert_eq!(InitialisingError::IOError("e".to_string()).message(), "io error occurred. e");
}

#[test]
fn ill_formed_state_is_detected() {
    let mut data = ReplData::new("lib".to_string(), SourceFileType::Rs, "dir".to_string());
    assert!(data.is_wf());
    data.current_file = 1;
    assert!(!data.is_wf());
}
