use nand2tetris::vm::parser::parse;
use nand2tetris::vm::{Ast, Function, PopDest, PushSource, Statement};

fn sample_statements(file: &str) -> Vec<Statement> {
    vec![
        Statement::Push(PushSource::Constant, 0),
        Statement::Push(PushSource::Static(file.to_string()), 65535),
        Statement::Pop(PopDest::Static(file.to_string()), 10),
        Statement::Pop(PopDest::Temp, 7),
        Statement::Push(PushSource::Pointer, 1),
        Statement::Add,
        Statement::Sub,
        Statement::Neg,
        Statement::Not,
        Statement::And,
        Statement::Or,
        Statement::Eq,
        Statement::Lt,
        Statement::Gt,
        Statement::Label("LOOP_1".to_string()),
        Statement::Goto("LOOP_1".to_string()),
        Statement::IfGoto("_end".to_string()),
        Statement::Return,
    ]
}

#[test]
fn statements_print_one_per_line() {
    assert_eq!(Statement::Add.text(), "add");
    assert_eq!(Statement::Return.text(), "return");
    assert_eq!(Statement::Push(PushSource::Constant, 7).text(), "push constant 7");
    assert_eq!(Statement::Push(PushSource::Static("F.vm".to_string()), 3).text(), "push static 3");
    assert_eq!(Statement::Pop(PopDest::That, 65535).text(), "pop that 65535");
    assert_eq!(Statement::Label("A".to_string()).text(), "label A");
    assert_eq!(Statement::Goto("A".to_string()).text(), "goto A");
    assert_eq!(Statement::IfGoto("A".to_string()).text(), "if-goto A");
    let unit = Ast::Statements(vec![Statement::Push(PushSource::Local, 2), Statement::Neg]);
    assert_eq!(unit.text(), "push local 2\nneg\n");
    assert_eq!(Ast::Statements(vec![]).text(), "");
}

#[test]
fn functions_print_with_their_head_line() {
    let f = Function {
        name: "Main.run".to_string(),
        locals: 2,
        statements: vec![Statement::Push(PushSource::Argument, 0), Statement::Return],
    };
    assert_eq!(f.text(), "function Main.run 2\npush argument 0\nreturn\n");
    let g = Function { name: "Main.idle".to_string(), locals: 0, statements: vec![] };
    assert_eq!(
        Ast::SingleFile(vec![f, g]).text(),
        "function Main.run 2\npush argument 0\nreturn\nfunction Main.idle 0\n"
    );
}

#[test]
fn printed_statements_read_back() {
    let unit = Ast::Statements(sample_statements("Main.vm"));
    assert_eq!(parse(&unit.text(), "Main.vm"), Ok(unit));
}

#[test]
fn printed_functions_read_back() {
    let unit = Ast::SingleFile(vec![
        Function { name: "Main.first".to_string(), locals: 3, statements: sample_statements("Main.vm") },
        Function { name: "Main.empty".to_string(), locals: 0, statements: vec![] },
        Function {
            name: "Ma.last".to_string(),
            locals: 65535,
            statements: vec![Statement::Push(PushSource::Constant, 1), Statement::Return],
        },
    ]);
    assert_eq!(parse(&unit.text(), "Main.vm"), Ok(unit));
}

#[test]
fn read_units_print_and_read_back() {
    let text = "// sum\nfunction Sum.to 1\n  push constant 0   pop local 0\nlabel again\n\tpush argument 0\n  if-goto again // loop\n return";
    let unit = parse(text, "Sum.vm").unwrap();
    assert_eq!(
        unit.text(),
        "function Sum.to 1\npush constant 0\npop local 0\nlabel again\npush argument 0\nif-goto again\nreturn\n"
    );
    assert_eq!(parse(&unit.text(), "Sum.vm"), Ok(unit));
}
