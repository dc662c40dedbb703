use papyrus::source::{cargotoml_contents, main_contents, CrateType, Input, SourceFile, SourceFileType};

fn input(stmts: &str, crates: &[(&str, &str)]) -> Input {
    Input {
        stmts: stmts.to_string(),
        crates: crates
            .iter()
            .map(|(n, l)| CrateType { cargo_name: n.to_string(), src_line: l.to_string() })
            .collect(),
    }
}

fn file(kind: SourceFileType, inputs: Vec<Input>) -> SourceFile {
    SourceFile { file_name: "lib".to_string(), file_type: kind, contents: inputs }
}

#[test]
fn entry_source_concatenates_declarations_then_statements() {
    let f = file(
        SourceFileType::Rs,
        vec![
            input("let a = 1;", &[("rand", "extern crate rand;")]),
            input("let b = a;", &[("rand", "extern crate rand;"), ("regex", "extern crate regex;")]),
        ],
    );
    assert_eq!(
        main_contents(&vec![f]),
        "\nextern crate rand;\nextern crate regex;\n\nlet a = 1;\nlet b = a;\n"
    );
}

#[test]
fn script_module_is_wrapped_in_main() {
    let f = file(SourceFileType::Rscript, vec![input("let a = 1;", &[])]);
    assert_eq!(main_contents(&vec![f]), "\n\n\nfn main() {\n\tlet a = 1;\n}\n");
}

#[test]
fn empty_program() {
    assert_eq!(main_contents(&vec![]), "\n\n\n\n");
    let f = file(SourceFileType::Rs, vec![]);
    assert_eq!(main_contents(&vec![f]), "\n\n\n\n");
}

#[test]
fn modules_in_order() {
    let a = file(SourceFileType::Rs, vec![input("fn a() {}", &[("x", "use x;")])]);
    let b = file(SourceFileType::Rs, vec![input("fn b() {}", &[("x", "use x;")])]);
    assert_eq!(main_contents(&vec![a, b]), "\nuse x;\n\nfn a() {}\nfn b() {}\n");
}

#[test]
fn manifest_lists_each_crate_once() {
    let f = file(SourceFileType::Rs, vec![input("", &[("rand", "r"), ("rand", "r2"), ("log", "l")])]);
    assert_eq!(
        cargotoml_contents("test-name", &vec![f]),
        "[package]\nname = \"test-name\"\nversion = \"0.1.0\"\n\n[dependencies]\nrand = \"*\"\nlog = \"*\"\n"
    );
}

#[test]
fn append_and_rollback() {
    let mut f = file(SourceFileType::Rs, vec![input("a", &[])]);
    f.append(input("b", &[]));
    assert_eq!(f.contents.len(), 2);
    f.rollback();
    assert_eq!(f.contents.len(), 1);
    assert_eq!(f.contents[0].stmts, "a");
    f.rollback();
    f.rollback();
    assert!(f.contents.is_empty());
}

#[test]
fn single_statement_layout() {
    let f = file(SourceFileType::Rs, vec![input("x", &[])]);
    assert_eq!(main_contents(&vec![f]), "\n\n\nx\n");
}
