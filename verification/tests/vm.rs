use nand2tetris::assembly::{Assembly, Compute, Instruction, Jump, Target};
use nand2tetris::vm::compiler::LabelGenerator;
use nand2tetris::vm::parser::{functions, is_identifier, parse, statements, Diagnostic};
use nand2tetris::vm::{Ast, Function, PopDest, PushSource, Statement, VM};
use nand2tetris::CodeType;

fn load(name: &str) -> Instruction {
    Instruction::load_symbol(name)
}

fn set(target: Target, compute: Compute) -> Instruction {
    Instruction::command(compute, target, Jump::NONE)
}

fn a() -> Target {
    Target::register_a()
}

fn d() -> Target {
    Target::register_d()
}

fn m() -> Target {
    Target::register_m()
}

fn am() -> Target {
    Target::register_a().union(Target::register_m())
}

fn push_d() -> Vec<Instruction> {
    vec![load("SP"), set(a(), Compute::M), set(m(), Compute::D), load("SP"), set(m(), Compute::MplusOne)]
}

fn pop(target: Target) -> Vec<Instruction> {
    vec![load("SP"), set(am(), Compute::MminOne), set(target, Compute::M)]
}

fn lower(source: &str, file: &str) -> Vec<Instruction> {
    let vm = VM::from_source(source, file, file).unwrap();
    match vm.compile() {
        Ok(CodeType::Assembly(assembly)) => assembly.instructions().clone(),
        Ok(_) => panic!("a unit lowers to assembly"),
        Err(text) => panic!("{}", text),
    }
}

fn lower_fault(source: &str) -> String {
    match VM::from_source(source, "Test.vm", "Test.vm").unwrap().compile() {
        Ok(_) => panic!("the unit must be refused"),
        Err(text) => text,
    }
}

/// Runs machine words on a Hack machine with the stack at 256 until the
/// program counter leaves the program, and returns the memory.
fn run(words: &[u16], steps: usize) -> Vec<u16> {
    let mut ram = vec![0u16; 0x8000];
    ram[0] = 256;
    let (mut a, mut d, mut pc) = (0u16, 0u16, 0usize);
    for _ in 0..steps {
        if pc >= words.len() {
            return ram;
        }
        let w = words[pc];
        if w & 0x8000 == 0 {
            a = w;
            pc += 1;
            continue;
        }
        let y = if w & 0x1000 != 0 { ram[(a & 0x7FFF) as usize] } else { a };
        let mut x = d;
        let mut y = y;
        if w & 0x0800 != 0 {
            x = 0;
        }
        if w & 0x0400 != 0 {
            x = !x;
        }
        if w & 0x0200 != 0 {
            y = 0;
        }
        if w & 0x0100 != 0 {
            y = !y;
        }
        let mut out = if w & 0x0080 != 0 { x.wrapping_add(y) } else { x & y };
        if w & 0x0040 != 0 {
            out = !out;
        }
        // The jump goes to the address that A held when the instruction began.
        let address = (a & 0x7FFF) as usize;
        if w & 0x0008 != 0 {
            ram[address] = out;
        }
        if w & 0x0010 != 0 {
            d = out;
        }
        if w & 0x0020 != 0 {
            a = out;
        }
        let value = out as i16;
        let jump = (w & 4 != 0 && value < 0) || (w & 2 != 0 && value == 0) || (w & 1 != 0 && value > 0);
        pc = if jump { address } else { pc + 1 };
    }
    panic!("the program did not end");
}

fn run_vm(source: &str) -> Vec<u16> {
    let vm = VM::from_source(source, "Test.vm", "Test.vm").unwrap();
    let hex = CodeType::VM(vm).compile().unwrap();
    run(&hex.instructions, 100_000)
}

#[test]
fn add_lowers_to_two_pushes_and_a_binary_operation() {
    let found = lower("push constant 7\npush constant 8\nadd", "Test.vm");
    let mut expected = vec![Instruction::load_data(7), set(d(), Compute::A)];
    expected.extend(push_d());
    expected.extend(vec![Instruction::load_data(8), set(d(), Compute::A)]);
    expected.extend(push_d());
    expected.extend(pop(d()));
    expected.extend(vec![load("SP"), set(a(), Compute::MminOne), set(m(), Compute::DplusM)]);
    assert_eq!(found, expected);
    let ram = run_vm("push constant 7\npush constant 8\nadd");
    assert_eq!(ram[0], 257);
    assert_eq!(ram[256], 15);
}

#[test]
fn comparisons_push_minus_one_or_zero() {
    let ram = run_vm("push constant 5\npush constant 5\neq");
    assert_eq!(ram[0], 257);
    assert_eq!(ram[256], 0xFFFF);
    let ram = run_vm("push constant 5\npush constant 6\neq");
    assert_eq!(ram[0], 257);
    assert_eq!(ram[256], 0x0000);
    assert_eq!(run_vm("push constant 5\npush constant 6\nlt")[256], 0xFFFF);
    assert_eq!(run_vm("push constant 5\npush constant 6\ngt")[256], 0x0000);
    assert_eq!(run_vm("push constant 6\npush constant 5\ngt")[256], 0xFFFF);
    assert_eq!(run_vm("push constant 6\npush constant 5\nlt")[256], 0x0000);
}

#[test]
fn arithmetic_and_logic_on_the_stack() {
    assert_eq!(run_vm("push constant 9\npush constant 4\nsub")[256], 5);
    assert_eq!(run_vm("push constant 12\npush constant 10\nand")[256], 8);
    assert_eq!(run_vm("push constant 12\npush constant 10\nor")[256], 14);
    assert_eq!(run_vm("push constant 3\nneg")[256], 0xFFFD);
    assert_eq!(run_vm("push constant 3\nnot")[256], 0xFFFC);
}

#[test]
fn segments_are_read_and_written() {
    let ram = run_vm(
        "push constant 300\npop pointer 0\npush constant 400\npop pointer 1\n\
         push constant 11\npop this 2\npush constant 12\npop that 3\n\
         push constant 13\npop temp 7\npush constant 14\npop static 3\n\
         push this 2\npush that 3\nadd\npush temp 7\nadd\npush static 3\nadd",
    );
    assert_eq!(ram[3], 300);
    assert_eq!(ram[4], 400);
    assert_eq!(ram[302], 11);
    assert_eq!(ram[403], 12);
    assert_eq!(ram[12], 13);
    assert_eq!(ram[16], 14);
    assert_eq!(ram[0], 257);
    assert_eq!(ram[256], 50);
}

#[test]
fn comparison_draws_two_fresh_labels() {
    let found = lower("eq\nlt", "Cmp.vm");
    let labels: Vec<String> = found
        .iter()
        .filter_map(|i| match i {
            Instruction::Label { label } => Some(label.clone()),
            _ => None,
        })
        .collect();
    assert_eq!(labels, vec!["Cmp.vm-stmt-0", "Cmp.vm-stmt-1", "Cmp.vm-stmt-2", "Cmp.vm-stmt-3"]);
    assert_eq!(found.len(), 42);
    assert_eq!(found[7], load("Cmp.vm-stmt-0"));
    assert_eq!(found[8], Instruction::command(Compute::D, Target::empty(), Jump::JEQ));
    assert_eq!(found[11], load("Cmp.vm-stmt-1"));
    assert_eq!(found[28], load("Cmp.vm-stmt-2"));
    assert_eq!(found[29], Instruction::command(Compute::D, Target::empty(), Jump::JLT));
}

#[test]
fn label_generator_counts_up() {
    let mut generator = LabelGenerator::new("dir/File.vm");
    assert!(generator.has_room(2));
    assert_eq!(generator.next_statement(), "dir/File.vm-stmt-0");
    assert_eq!(generator.next_statement(), "dir/File.vm-stmt-1");
    for _ in 2..10 {
        generator.next_statement();
    }
    assert_eq!(generator.next_statement(), "dir/File.vm-stmt-10");
    let code = Statement::Gt.compile(&mut generator).unwrap();
    assert_eq!(code[13], Instruction::label("dir/File.vm-stmt-11"));
    assert_eq!(code[15], Instruction::label("dir/File.vm-stmt-12"));
    assert_eq!(generator.next_statement(), "dir/File.vm-stmt-13");
}

#[test]
fn statics_are_named_after_their_file() {
    let foo = lower("push static 3", "Foo.vm");
    let bar = lower("push static 3", "Bar.vm");
    assert_eq!(foo[0], load("staticvar.Foo.vm.3"));
    assert_eq!(bar[0], load("staticvar.Bar.vm.3"));
    let mut both = foo;
    both.extend(bar);
    let (words, symbols) = Assembly::from_instructions(both).assemble().unwrap();
    assert_eq!(symbols.lookup("staticvar.Foo.vm.3"), Some(16));
    assert_eq!(symbols.lookup("staticvar.Bar.vm.3"), Some(17));
    assert_eq!(words[0], 16);
    assert_eq!(words[7], 17);
}

#[test]
fn segment_names() {
    assert_eq!(Statement::static_name("Foo.vm", 65535), "staticvar.Foo.vm.65535");
    assert_eq!(Statement::temp_name(0), "R5");
    assert_eq!(Statement::temp_name(7), "R12");
    assert_eq!(Statement::pointer_name(0), "R3");
    assert_eq!(Statement::pointer_name(1), "R4");
    assert_eq!(Function::function_label("Main.run"), "function:Main.run");
}

#[test]
fn temp_and_pointer_indices_are_bounded() {
    assert_eq!(lower("push temp 7", "Test.vm")[0], load("R12"));
    assert_eq!(lower("pop pointer 1", "Test.vm")[3], load("R4"));
    assert_eq!(lower_fault("push temp 8"), "Index out of range for temp: 8");
    assert_eq!(lower_fault("pop temp 8"), "Index out of range for temp: 8");
    assert_eq!(lower_fault("push pointer 2"), "Index out of range for pointer: 2");
    assert_eq!(lower_fault("add\npop pointer 2"), "Index out of range for pointer: 2");
    assert!(Statement::Push(PushSource::Temp, 7).in_range());
    assert!(!Statement::Push(PushSource::Temp, 8).in_range());
    assert!(Statement::Pop(PopDest::Pointer, 1).in_range());
    assert!(!Statement::Pop(PopDest::Pointer, 2).in_range());
    assert!(Statement::Push(PushSource::Constant, 65535).in_range());
}

#[test]
fn duplicate_labels_are_refused() {
    assert_eq!(lower_fault("label A\nlabel B\nlabel A"), "Duplicate Label definition 'A'");
    assert_eq!(
        lower_fault("function Test.a 0\nlabel X\nfunction Test.b 0\nlabel X"),
        "Duplicate Label definition 'X'"
    );
    assert_eq!(lower_fault("label A\npush temp 9\nlabel A"), "Index out of range for temp: 9");
}

#[test]
fn branching_statements() {
    let found = lower("label LOOP\ngoto LOOP\nif-goto LOOP", "Test.vm");
    let mut expected = vec![
        Instruction::label("LOOP"),
        load("LOOP"),
        Instruction::command(Compute::Zero, Target::empty(), Jump::JMP),
    ];
    expected.extend(pop(d()));
    expected.extend(vec![load("LOOP"), Instruction::command(Compute::D, Target::empty(), Jump::JNE)]);
    assert_eq!(found, expected);
    let ram = run_vm(
        "push constant 0\npop temp 0\npush constant 3\npop temp 1\n\
         label LOOP\npush temp 0\npush temp 1\nadd\npop temp 0\n\
         push temp 1\npush constant 1\nsub\npop temp 1\npush temp 1\nif-goto LOOP",
    );
    assert_eq!(ram[5], 6);
    assert_eq!(ram[6], 0);
    assert_eq!(ram[0], 256);
}

#[test]
fn function_clears_its_locals() {
    let found = lower("function Test.f 2\nreturn", "Test.vm");
    assert_eq!(
        found[..7],
        [
            Instruction::label("function:Test.f"),
            load("LCL"),
            set(a(), Compute::M),
            set(m(), Compute::Zero),
            set(a(), Compute::AplusOne),
            set(m(), Compute::Zero),
            set(a(), Compute::AplusOne),
        ]
    );
    assert_eq!(found.len(), 7 + 12 + 4 + 4 + 3 + 5 + 5 + 5 + 4);
    assert_eq!(found[found.len() - 2], set(a(), Compute::M));
    assert_eq!(
        found[found.len() - 1],
        Instruction::command(Compute::Zero, Target::empty(), Jump::JMP)
    );
}

#[test]
fn return_restores_the_frame_of_the_caller() {
    let unit = Ast::SingleFile(vec![Function {
        name: "Test.f".to_string(),
        locals: 1,
        statements: vec![Statement::Push(PushSource::Constant, 42), Statement::Return],
    }]);
    let hex = CodeType::VM(VM::new(unit, "Test.vm")).compile().unwrap();
    let mut words = hex.instructions.clone();
    let end = words.len() as u16;
    // The caller's frame: return address, LCL, ARG, THIS, THAT, then the locals.
    let mut ram = vec![0u16; 0x8000];
    ram[0] = 318;
    ram[1] = 317;
    ram[2] = 310;
    ram[310] = 7;
    ram[311] = 8;
    ram[312] = end;
    ram[313] = 1000;
    ram[314] = 2000;
    ram[315] = 3000;
    ram[316] = 4000;
    ram[317] = 99;
    words.push(0);
    let (mut a, mut d, mut pc) = (0u16, 0u16, 0usize);
    for _ in 0..10_000 {
        if pc >= end as usize {
            break;
        }
        let w = words[pc];
        if w & 0x8000 == 0 {
            a = w;
            pc += 1;
            continue;
        }
        let mut x = if w & 0x0800 != 0 { 0 } else { d };
        if w & 0x0400 != 0 {
            x = !x;
        }
        let mut y = if w & 0x0200 != 0 {
            0
        } else if w & 0x1000 != 0 {
            ram[a as usize]
        } else {
            a
        };
        if w & 0x0100 != 0 {
            y = !y;
        }
        let mut out = if w & 0x0080 != 0 { x.wrapping_add(y) } else { x & y };
        if w & 0x0040 != 0 {
            out = !out;
        }
        // The jump goes to the address that A held when the instruction began.
        let address = a as usize;
        if w & 0x0008 != 0 {
            ram[address] = out;
        }
        if w & 0x0010 != 0 {
            d = out;
        }
        if w & 0x0020 != 0 {
            a = out;
        }
        let value = out as i16;
        let jump = (w & 4 != 0 && value < 0) || (w & 2 != 0 && value == 0) || (w & 1 != 0 && value > 0);
        pc = if jump { address } else { pc + 1 };
    }
    assert_eq!(pc, end as usize);
    assert_eq!(ram[310], 42);
    assert_eq!(ram[0], 311);
    assert_eq!(ram[1], 1000);
    assert_eq!(ram[2], 2000);
    assert_eq!(ram[3], 3000);
    assert_eq!(ram[4], 4000);
    assert_eq!(ram[317], 0);
}

#[test]
fn unit_shape_follows_the_function_keyword() {
    assert_eq!(
        parse("push constant 1 // one\n\n  add\n", "A.vm"),
        Ok(Ast::Statements(vec![Statement::Push(PushSource::Constant, 1), Statement::Add]))
    );
    assert_eq!(
        parse("// function in a comment\nadd", "A.vm"),
        Ok(Ast::Statements(vec![Statement::Add]))
    );
    assert_eq!(
        parse("function A.main 2\n  push local 0\n  return\nfunction A.other 0\n", "A.vm"),
        Ok(Ast::SingleFile(vec![
            Function {
                name: "A.main".to_string(),
                locals: 2,
                statements: vec![Statement::Push(PushSource::Local, 0), Statement::Return],
            },
            Function { name: "A.other".to_string(), locals: 0, statements: vec![] },
        ]))
    );
    assert_eq!(parse("", "A.vm"), Ok(Ast::Statements(vec![])));
    assert_eq!(parse(" // only a comment", "A.vm"), Ok(Ast::Statements(vec![])));
}

#[test]
fn every_statement_form_is_read() {
    let text = "not and or neg add sub eq lt gt return\n\
                push constant 0\tpush local 1\npush argument 2\npush this 3\npush that 4\n\
                push temp 5\npush pointer 1\npush static 65535\n\
                pop local 1\npop argument 2\npop this 3\npop that 4\npop temp 5\npop pointer 0\n\
                pop static 7\nlabel a_1\ngoto _b\nif-goto C2";
    let file = || "F.vm".to_string();
    assert_eq!(
        statements(text, "F.vm"),
        Ok(vec![
            Statement::Not,
            Statement::And,
            Statement::Or,
            Statement::Neg,
            Statement::Add,
            Statement::Sub,
            Statement::Eq,
            Statement::Lt,
            Statement::Gt,
            Statement::Return,
            Statement::Push(PushSource::Constant, 0),
            Statement::Push(PushSource::Local, 1),
            Statement::Push(PushSource::Argument, 2),
            Statement::Push(PushSource::This, 3),
            Statement::Push(PushSource::That, 4),
            Statement::Push(PushSource::Temp, 5),
            Statement::Push(PushSource::Pointer, 1),
            Statement::Push(PushSource::Static(file()), 65535),
            Statement::Pop(PopDest::Local, 1),
            Statement::Pop(PopDest::Argument, 2),
            Statement::Pop(PopDest::This, 3),
            Statement::Pop(PopDest::That, 4),
            Statement::Pop(PopDest::Temp, 5),
            Statement::Pop(PopDest::Pointer, 0),
            Statement::Pop(PopDest::Static(file()), 7),
            Statement::Label("a_1".to_string()),
            Statement::Goto("_b".to_string()),
            Statement::IfGoto("C2".to_string()),
        ])
    );
}

fn fault(start: usize, end: usize, message: &str) -> Diagnostic {
    Diagnostic { start, end, message: message.to_string() }
}

#[test]
fn refusals_carry_the_place_and_the_word() {
    assert_eq!(parse("add\nmul", "A.vm"), Err(vec![fault(4, 7, "Unknown statement 'mul'")]));
    assert_eq!(parse("adder", "A.vm"), Err(vec![fault(0, 5, "Unknown statement 'adder'")]));
    assert_eq!(
        parse("pop constant 1", "A.vm"),
        Err(vec![fault(4, 12, "Expected a segment, found 'constant'")])
    );
    assert_eq!(
        parse("push heap 1", "A.vm"),
        Err(vec![fault(5, 9, "Expected a segment, found 'heap'")])
    );
    assert_eq!(
        parse("push constant 65536", "A.vm"),
        Err(vec![fault(14, 19, "Number does not fit 16 bits: '65536'")])
    );
    assert_eq!(
        parse("push constant 007", "A.vm"),
        Err(vec![fault(14, 17, "Expected a decimal number, found '007'")])
    );
    assert_eq!(
        parse("push constant\n7", "A.vm"),
        Err(vec![fault(13, 13, "Expected a decimal number, found ''")])
    );
    assert_eq!(
        parse("label 9x", "A.vm"),
        Err(vec![fault(6, 8, "Expected an identifier, found '9x'")])
    );
    assert_eq!(
        parse("function main 0", "A.vm"),
        Err(vec![fault(9, 13, "Expected a function name File.name, found 'main'")])
    );
}

#[test]
fn function_names_must_start_like_the_file() {
    assert_eq!(
        parse("function B.main 0\nfunction C.x 1\nbogus", "A.vm"),
        Err(vec![
            fault(9, 15, "Function name first part must match the filename. Found 'B'."),
            fault(27, 30, "Function name first part must match the filename. Found 'C'."),
            fault(33, 38, "Unknown statement 'bogus'"),
        ])
    );
    assert!(parse("function A.main 0", "A.vm").is_ok());
    assert!(parse("function Ab.main 0", "Abc.vm").is_ok());
    assert_eq!(
        parse("add\nfunction A.main 0", "A.vm"),
        Err(vec![fault(13, 19, "Function declared after bare statements: 'A.main'")])
    );
}

#[test]
fn statements_and_functions_ask_for_their_shape() {
    assert_eq!(
        statements("function A.f 0", "A.vm"),
        Err(vec![fault(0, 0, "Expected statements, found functions")])
    );
    assert_eq!(
        functions("add", "A.vm"),
        Err(vec![fault(0, 0, "Expected functions, found statements")])
    );
    assert_eq!(functions("", "A.vm"), Ok(vec![]));
    assert_eq!(
        functions("function A.f 3", "A.vm"),
        Ok(vec![Function { name: "A.f".to_string(), locals: 3, statements: vec![] }])
    );
}

#[test]
fn whole_pipeline_from_text_to_lines() {
    let vm = VM::from_source("push constant 2", "Two.vm", "Two.vm").unwrap();
    let hex = CodeType::VM(vm).compile().unwrap();
    let text = CodeType::Hex(hex).write().unwrap();
    assert_eq!(
        text,
        "0000000000000010\n1110110000010000\n0000000000000000\n1111110000100000\n1110001100001000\n0000000000000000\n1111110111001000\n"
    );
    assert!(CodeType::Assembly(Assembly::from_instructions(vec![])).write().is_none());
}

#[test]
fn label_generator_room() {
    let mut generator = LabelGenerator::new("F.vm");
    assert!(generator.has_room(u64::MAX));
    generator.next_statement();
    assert!(!generator.has_room(u64::MAX));
    assert!(generator.has_room(u64::MAX - 1));
    assert_eq!(Statement::Eq.labels_drawn(), 2);
    assert_eq!(Statement::Add.labels_drawn(), 0);
}

#[test]
fn line_ends_and_comments_separate_statements() {
    assert_eq!(
        parse("push constant 1\r\nadd\r\n", "A.vm"),
        Ok(Ast::Statements(vec![Statement::Push(PushSource::Constant, 1), Statement::Add]))
    );
    assert_eq!(
        parse("add// sum\n\tsub   //difference", "A.vm"),
        Ok(Ast::Statements(vec![Statement::Add, Statement::Sub]))
    );
    assert_eq!(
        parse("push \t constant   12//twelve\nlabel x// here", "A.vm"),
        Ok(Ast::Statements(vec![
            Statement::Push(PushSource::Constant, 12),
            Statement::Label("x".to_string()),
        ]))
    );
    assert_eq!(
        parse("push constant // 3\n3", "A.vm"),
        Err(vec![fault(14, 14, "Expected a decimal number, found ''")])
    );
    assert_eq!(parse("add/", "A.vm"), Err(vec![fault(0, 4, "Unknown statement 'add/'")]));
}

#[test]
fn return_lowers_to_forty_two_instructions() {
    let mut generator = LabelGenerator::new("Test.vm");
    let code = Statement::Return.compile(&mut generator).unwrap();
    assert_eq!(code.len(), 42);
    assert_eq!(
        code[38..],
        [
            load("R14"),
            set(a(), Compute::MminOne),
            set(a(), Compute::M),
            Instruction::command(Compute::Zero, Target::empty(), Jump::JMP),
        ]
    );
    assert_eq!(code[12..16], [load("ARG"), set(d(), Compute::MplusOne), load("SP"), set(m(), Compute::D)]);
    assert_eq!(code[16..20], [load("LCL"), set(d(), Compute::MminOne), load("R14"), set(am(), Compute::D)]);
    assert_eq!(code[21], load("THAT"));
    assert_eq!(code[26], load("THIS"));
    assert_eq!(code[31], load("ARG"));
    assert_eq!(code[36], load("LCL"));
}

#[test]
fn statements_out_of_range_are_refused_where_they_are_lowered() {
    let mut generator = LabelGenerator::new("Test.vm");
    assert_eq!(
        Statement::Push(PushSource::Temp, 8).compile(&mut generator),
        Err("Index out of range for temp: 8".to_string())
    );
    assert_eq!(
        Statement::Pop(PopDest::Temp, 8).compile(&mut generator),
        Err("Index out of range for temp: 8".to_string())
    );
    assert_eq!(
        Statement::Push(PushSource::Pointer, 2).compile(&mut generator),
        Err("Index out of range for pointer: 2".to_string())
    );
    assert_eq!(
        Statement::Pop(PopDest::Pointer, 2).compile(&mut generator),
        Err("Index out of range for pointer: 2".to_string())
    );
    assert_eq!(Statement::Push(PushSource::Temp, 7).compile(&mut generator).unwrap()[0], load("R12"));
    assert_eq!(Statement::Pop(PopDest::Pointer, 1).compile(&mut generator).unwrap()[3], load("R4"));
    assert_eq!(generator.next_statement(), "Test.vm-stmt-0");
}

#[test]
fn functions_with_a_fault_lower_nothing() {
    let mut generator = LabelGenerator::new("Test.vm");
    let bad = Function {
        name: "Test.f".to_string(),
        locals: 0,
        statements: vec![Statement::Eq, Statement::Pop(PopDest::Temp, 9), Statement::Push(PushSource::Pointer, 5)],
    };
    assert_eq!(bad.compile(&mut generator), Err("Index out of range for temp: 9".to_string()));
    assert_eq!(generator.next_statement(), "Test.vm-stmt-0");
    let good = Function { name: "Test.g".to_string(), locals: 1, statements: vec![Statement::Lt] };
    let code = good.compile(&mut generator).unwrap();
    assert_eq!(code.len(), 3 + 2 + 21);
    assert_eq!(code[5 + 13], Instruction::label("Test.vm-stmt-1"));
    assert_eq!(generator.next_statement(), "Test.vm-stmt-3");
}

#[test]
fn names_are_unicode_identifiers() {
    assert_eq!(
        parse("label gr\u{f6}\u{df}e\ngoto \u{4e2d}\u{6587}_1\nif-goto _x9", "A.vm"),
        Ok(Ast::Statements(vec![
            Statement::Label("gr\u{f6}\u{df}e".to_string()),
            Statement::Goto("\u{4e2d}\u{6587}_1".to_string()),
            Statement::IfGoto("_x9".to_string()),
        ]))
    );
    assert_eq!(
        parse("label x9 label 9x", "A.vm"),
        Err(vec![fault(15, 17, "Expected an identifier, found '9x'")])
    );
    assert_eq!(
        parse("label a$b", "A.vm"),
        Err(vec![fault(6, 9, "Expected an identifier, found 'a$b'")])
    );
    assert_eq!(
        parse("goto a-b", "A.vm"),
        Err(vec![fault(5, 8, "Expected an identifier, found 'a-b'")])
    );
    assert_eq!(
        parse("goto a:b", "A.vm"),
        Err(vec![fault(5, 8, "Expected an identifier, found 'a:b'")])
    );
    assert_eq!(
        parse("function \u{c4}.\u{e4} 0", "\u{c4}.vm"),
        Ok(Ast::SingleFile(vec![Function {
            name: "\u{c4}.\u{e4}".to_string(),
            locals: 0,
            statements: vec![],
        }]))
    );
    let unit = parse("label gr\u{f6}\u{df}e", "A.vm").unwrap();
    assert_eq!(unit.text(), "label gr\u{f6}\u{df}e\n");
    assert_eq!(parse(&unit.text(), "A.vm"), Ok(unit));
}

#[test]
fn identifiers_start_with_a_letter_or_underscore() {
    for word in ["a", "_", "LOOP_1", "x9", "gr\u{f6}\u{df}e", "\u{4e2d}"] {
        assert!(is_identifier(word));
    }
    for word in ["", "9", "9x", "a b", "a.b", "a-b", "a:b", "a/b", "a$", " a", "\u{2028}"] {
        assert!(!is_identifier(word));
    }
}
