use papyrus::complete::{CmdTreeActionCompleter, CmdTreeCompleter, Namespace, NamespaceEntry};

fn namespace(at_root: bool, path: &str, entries: &[(&str, bool)]) -> Namespace {
    Namespace {
        root_name: "root".to_string(),
        path: path.to_string(),
        at_root,
        entries: entries
            .iter()
            .map(|(p, a)| NamespaceEntry { path: p.to_string(), is_action: *a })
            .collect(),
    }
}

fn paths(ac: &CmdTreeActionCompleter, line: &str) -> Vec<(String, String)> {
    ac.candidates("w", line, 0)
        .iter()
        .map(|c| (c.qualified_path.to_string(), c.line.to_string()))
        .collect()
}

#[test]
fn completion_uniqueness() {
    let ns = namespace(false, "root", &[("root.foo", true), ("root.foobar", true)]);
    let ac = CmdTreeActionCompleter::build(&ns);
    assert_eq!(paths(&ac, "foo "), vec![("foo".to_string(), String::new())]);
    assert!(paths(&ac, "foob").is_empty());
    assert_eq!(paths(&ac, "foobar "), vec![("foobar".to_string(), String::new())]);
}

#[test]
fn candidate_keeps_word_and_rest_of_line() {
    let ns = namespace(false, "root", &[("root.foo", true), ("root.bar", false)]);
    let ac = CmdTreeActionCompleter::build(&ns);
    let c = ac.candidates("x", "foo a b", 7);
    assert_eq!(c.len(), 1);
    assert_eq!(c[0].qualified_path, "foo");
    assert_eq!(c[0].line, "a b");
    assert_eq!(c[0].word, "x");
    assert_eq!(c[0].word_start, 7);
    assert!(ac.candidates("x", "bar ", 0).is_empty());
}

#[test]
fn action_at_root_needs_marker() {
    let ns = namespace(true, "root", &[("root.foo", true)]);
    let ac = CmdTreeActionCompleter::build(&ns);
    assert!(paths(&ac, "foo ").is_empty());
    assert_eq!(paths(&ac, ".foo x"), vec![("foo".to_string(), "x".to_string())]);
}

#[test]
fn nested_action_is_space_delimited() {
    let ns = namespace(false, "root", &[("root.sub.run", true)]);
    let ac = CmdTreeActionCompleter::build(&ns);
    assert_eq!(paths(&ac, "sub run now"), vec![("sub.run".to_string(), "now".to_string())]);
}

#[test]
fn space_delimited_completions() {
    let ns = namespace(false, "root", &[("root.a", false), ("root.a.b", true), ("root.c", false)]);
    let c = CmdTreeCompleter::build(&ns);
    assert_eq!(c.complete("a", "a", 0), vec!["a".to_string(), "a b".to_string()]);
    assert_eq!(c.complete("b", "a ", 2), vec!["b".to_string()]);
    assert!(c.complete("z", "z", 0).is_empty());
}

#[test]
fn completions_at_root_carry_marker() {
    let ns = namespace(true, "root", &[("root.a..b", true)]);
    let c = CmdTreeCompleter::build(&ns);
    assert_eq!(c.complete("", ".", 0), vec![".a b".to_string()]);
    assert_eq!(c.complete("", ".a", 1), vec!["a b".to_string()]);
}

#[test]
fn completion_past_the_end_is_empty() {
    let ns = namespace(false, "root", &[("root.a", false)]);
    let c = CmdTreeCompleter::build(&ns);
    assert_eq!(c.complete("", "", 5), vec![String::new()]);
}
