use nand2tetris::assembly::symbols::LabelStore;
use nand2tetris::diagnostic::Diagnostic;
use nand2tetris::assembly::{Assembly, Compute, Instruction, Jump, LoadData, Target};
use nand2tetris::CodeType;

fn words(instructions: Vec<Instruction>) -> Vec<u16> {
    match Assembly::from_instructions(instructions).compile() {
        Ok(CodeType::Hex(hex)) => hex.instructions,
        Ok(_) => panic!("assembling must end in machine words"),
        Err(text) => panic!("{}", text),
    }
}

fn words_of_source(text: &str) -> Result<Vec<u16>, String> {
    match Assembly::from_source(text)?.compile()? {
        CodeType::Hex(hex) => Ok(hex.instructions),
        _ => panic!("assembling must end in machine words"),
    }
}

fn lines_of_source(text: &str) -> String {
    match Assembly::from_source(text).unwrap().compile().unwrap().write() {
        Some(out) => out,
        None => panic!("machine words have a text"),
    }
}

#[test]
fn load_of_predefined_symbol() {
    assert_eq!(words(vec![Instruction::load_symbol("SCREEN")]), vec![0x4000]);
    assert_eq!(lines_of_source("@SCREEN"), "0100000000000000\n");
}

#[test]
fn command_d_plus_a_into_d() {
    let i = Instruction::command(Compute::DplusA, Target::register_d(), Jump::NONE);
    assert_eq!(words(vec![i]), vec![0b1110000010010000]);
    assert_eq!(lines_of_source("D=D+A"), "1110000010010000\n");
}

#[test]
fn forward_label_resolves_to_rom_address() {
    // A label stands for the number of word-emitting instructions before it.
    assert_eq!(
        lines_of_source("(LOOP)\n@LOOP\n0;JMP"),
        "0000000000000000\n1110101010000111\n"
    );
    assert_eq!(
        lines_of_source("@LOOP\n(LOOP)\n0;JMP"),
        "0000000000000001\n1110101010000111\n"
    );
    let (_, table) = Assembly::from_source("@LOOP\n(LOOP)\n0;JMP").unwrap().assemble().unwrap();
    assert_eq!(table.lookup("LOOP"), Some(1));
    let program = Assembly::from_source("@LOOP\nD=A\n(LOOP)\n0;JMP").unwrap();
    let (words, symbols) = program.assemble().unwrap();
    assert_eq!(words, vec![2, 0b1110110000010000, 0b1110101010000111]);
    assert_eq!(symbols.lookup("LOOP"), Some(2));
}

#[test]
fn largest_address_is_accepted_and_next_refused() {
    assert_eq!(words_of_source("@32767"), Ok(vec![0x7FFF]));
    assert_eq!(
        words_of_source("@32768"),
        Err("Value 32768 is too large to be represented.".to_string())
    );
    assert_eq!(
        words_of_source("@99999999999999999999"),
        Err("Value 99999999999999999999 is too large to be represented.".to_string())
    );
    assert_eq!(words_of_source("@0012"), Ok(vec![12]));
}

#[test]
fn malformed_addresses_are_refused() {
    assert_eq!(words_of_source("@"), Err("Missing address after @".to_string()));
    assert_eq!(words_of_source("@12ab"), Err("Value 12ab is not a number.".to_string()));
}

#[test]
fn comments_and_blank_lines_give_no_words() {
    assert_eq!(words_of_source("// nothing\n\n   \t\n  // more\r\n"), Ok(vec![]));
    assert_eq!(lines_of_source("// nothing\n\n"), "");
    assert_eq!(words_of_source(""), Ok(vec![]));
}

#[test]
fn trailing_comment_and_spaces_are_ignored() {
    assert_eq!(words_of_source("   D=M   // read\r\n"), Ok(vec![0b1111110000010000]));
    assert_eq!(words_of_source("\t@5//five"), Ok(vec![5]));
}

#[test]
fn variables_get_addresses_from_sixteen_in_order_of_first_use() {
    assert_eq!(
        words_of_source("@first\n@second\n@first\n@third\n@R5\n@second"),
        Ok(vec![16, 17, 16, 18, 5, 17])
    );
}

#[test]
fn label_table_allocates_and_declares() {
    let mut table = LabelStore::new();
    assert_eq!(table.next_variable(), 16);
    assert_eq!(table.lookup("x"), None);
    assert_eq!(table.get("x"), Ok(16));
    assert_eq!(table.get("y"), Ok(17));
    assert_eq!(table.get("x"), Ok(16));
    assert_eq!(table.next_variable(), 18);
    assert_eq!(table.insert("END", 42), Ok(()));
    assert_eq!(table.get("END"), Ok(42));
    assert_eq!(table.next_variable(), 18);
    assert_eq!(table.insert("END", 43), Err("Key 'END' already exists".to_string()));
    assert_eq!(table.insert("x", 1), Err("Key 'x' already exists".to_string()));
}

#[test]
fn predefined_symbols_are_present() {
    let program = Assembly::from_source("@i\n(LOOP)\n@LOOP\n0;JMP").unwrap();
    let (_, symbols) = program.assemble().unwrap();
    let expected: [(&str, u16); 23] = [
        ("SP", 0),
        ("LCL", 1),
        ("ARG", 2),
        ("THIS", 3),
        ("THAT", 4),
        ("R0", 0),
        ("R1", 1),
        ("R2", 2),
        ("R3", 3),
        ("R4", 4),
        ("R5", 5),
        ("R6", 6),
        ("R7", 7),
        ("R8", 8),
        ("R9", 9),
        ("R10", 10),
        ("R11", 11),
        ("R12", 12),
        ("R13", 13),
        ("R14", 14),
        ("R15", 15),
        ("SCREEN", 0x4000),
        ("KBD", 0x6000),
    ];
    for (name, address) in expected {
        assert_eq!(symbols.lookup(name), Some(address));
    }
    assert_eq!(symbols.lookup("i"), Some(16));
    assert_eq!(symbols.lookup("LOOP"), Some(1));
}

#[test]
fn duplicate_label_is_refused() {
    assert_eq!(
        words_of_source("(A)\n@1\n(A)"),
        Err("Key 'A' already exists".to_string())
    );
    assert_eq!(words_of_source("(SCREEN)"), Err("Key 'SCREEN' already exists".to_string()));
}

#[test]
fn word_count_and_top_bits() {
    let text = "@1\n(X)\nD=A\n@X\n(Y)\nD;JGT\n@v\nM=D";
    let program = Assembly::from_source(text).unwrap();
    let emitting: Vec<bool> = program
        .instructions()
        .iter()
        .filter(|i| !matches!(i, Instruction::Label { .. }))
        .map(|i| matches!(i, Instruction::Command { .. }))
        .collect();
    let (words, _) = program.assemble().unwrap();
    assert_eq!(words.len(), emitting.len());
    assert_eq!(words.len(), 6);
    for (word, is_command) in words.iter().zip(emitting) {
        if is_command {
            assert_eq!(word & 0xE000, 0xE000);
        } else {
            assert_eq!(word & 0x8000, 0);
        }
    }
}

#[test]
fn plain_program_assembles_the_same_twice() {
    let text = "@1\nD=A\n@2\nD=D+A\n@0\nM=D";
    let once = lines_of_source(text);
    let twice = lines_of_source(text);
    assert_eq!(once, twice);
    assert_eq!(
        once,
        "0000000000000001\n1110110000010000\n0000000000000010\n1110000010010000\n0000000000000000\n1110001100001000\n"
    );
}

#[test]
fn destinations_are_sets_of_registers() {
    assert_eq!(Target::try_from(""), Ok(Target::empty()));
    assert_eq!(Target::try_from("A").map(|t| t.compile()), Ok(0b100000));
    assert_eq!(Target::try_from("D").map(|t| t.compile()), Ok(0b010000));
    assert_eq!(Target::try_from("M").map(|t| t.compile()), Ok(0b001000));
    assert_eq!(Target::try_from("AMD").map(|t| t.compile()), Ok(0b111000));
    assert_eq!(Target::try_from("MA"), Ok(Target::register_a().union(Target::register_m())));
    assert_eq!(Target::try_from("AX"), Err("Unkown command target X".to_string()));
}

#[test]
fn jumps_have_fixed_codes() {
    let table: [(&str, u16); 8] = [
        ("", 0),
        ("JGT", 1),
        ("JEQ", 2),
        ("JGE", 3),
        ("JLT", 4),
        ("JNE", 5),
        ("JLE", 6),
        ("JMP", 7),
    ];
    for (text, code) in table {
        assert_eq!(Jump::try_from(text).map(|j| j.compile()), Ok(code));
    }
    assert_eq!(Jump::try_from("JXX"), Err("Unkown Jump condition JXX".to_string()));
}

#[test]
fn computations_follow_the_table() {
    let table: [(&str, u16); 28] = [
        ("0", 0b0101010),
        ("1", 0b0111111),
        ("-1", 0b0111010),
        ("D", 0b0001100),
        ("A", 0b0110000),
        ("M", 0b1110000),
        ("!D", 0b0001101),
        ("!A", 0b0110001),
        ("!M", 0b1110001),
        ("-D", 0b0001111),
        ("-A", 0b0110011),
        ("-M", 0b1110011),
        ("D+1", 0b0011111),
        ("A+1", 0b0110111),
        ("M+1", 0b1110111),
        ("D-1", 0b0001110),
        ("A-1", 0b0110010),
        ("M-1", 0b1110010),
        ("D+A", 0b0000010),
        ("D+M", 0b1000010),
        ("D-A", 0b0010011),
        ("D-M", 0b1010011),
        ("A-D", 0b0000111),
        ("M-D", 0b1000111),
        ("D&A", 0b0000000),
        ("D&M", 0b1000000),
        ("D|A", 0b0010101),
        ("D|M", 0b1010101),
    ];
    for (text, bits) in table {
        assert_eq!(Compute::try_from(text).map(|c| c.compile()), Ok(bits << 6));
    }
    assert_eq!(Compute::try_from("D+D"), Err("Unkown Compute command D+D".to_string()));
}

#[test]
fn lines_are_classified_by_their_first_character() {
    assert!(matches!(Instruction::from_str("   "), Ok(None)));
    assert!(matches!(Instruction::from_str("// x"), Ok(None)));
    match Instruction::from_str("(LOOP)") {
        Ok(Some(Instruction::Label { label })) => assert_eq!(label, "LOOP"),
        other => panic!("{:?}", other),
    }
    match Instruction::from_str("@sum // total") {
        Ok(Some(Instruction::Load { data: LoadData::Label(name) })) => assert_eq!(name, "sum"),
        other => panic!("{:?}", other),
    }
    match Instruction::from_str("@42") {
        Ok(Some(Instruction::Load { data: LoadData::Data(n) })) => assert_eq!(n, 42),
        other => panic!("{:?}", other),
    }
    match Instruction::from_str("AM=M-1;JNE") {
        Ok(Some(Instruction::Command { compute, target, jump })) => {
            assert_eq!(compute, Compute::MminOne);
            assert_eq!(target, Target::register_a().union(Target::register_m()));
            assert_eq!(jump, Jump::JNE);
        }
        other => panic!("{:?}", other),
    }
}

#[test]
fn faults_of_a_command_come_in_order() {
    assert_eq!(
        words_of_source("X=Q;JXX"),
        Err("Unkown command target X".to_string())
    );
    assert_eq!(words_of_source("D=Q;JXX"), Err("Unkown Jump condition JXX".to_string()));
    assert_eq!(words_of_source("D=Q;JMP"), Err("Unkown Compute command Q".to_string()));
    assert_eq!(words_of_source("D = M"), Err("Unkown command target  ".to_string()));
}

#[test]
fn instruction_words() {
    let mut table = LabelStore::new();
    assert_eq!(Instruction::label("X").compile(&mut table), Ok(None));
    assert_eq!(Instruction::load_data(0xFFFF).compile(&mut table), Ok(Some(0x7FFF)));
    assert_eq!(Instruction::load_symbol("KBD").compile(&mut table), Ok(Some(0x6000)));
    assert_eq!(Instruction::load_symbol("fresh").compile(&mut table), Ok(Some(16)));
    assert_eq!(
        Instruction::command(Compute::Zero, Target::empty(), Jump::JMP).compile(&mut table),
        Ok(Some(0b1110101010000111))
    );
}

#[test]
fn instruction_counter_has_sixteen_bits() {
    let full: Vec<Instruction> = (0..65535).map(|_| Instruction::load_data(1)).collect();
    assert_eq!(words(full).len(), 65535);
    let mut labelled: Vec<Instruction> = (0..65535).map(|_| Instruction::load_data(1)).collect();
    labelled.push(Instruction::label("END"));
    let (_, table) = Assembly::from_instructions(labelled).assemble().unwrap();
    assert_eq!(table.lookup("END"), Some(65535));
    let over: Vec<Instruction> = (0..65536).map(|_| Instruction::load_data(1)).collect();
    match Assembly::from_instructions(over).compile() {
        Err(text) => assert_eq!(text, "Program exceeds the 16-bit instruction counter"),
        Ok(_) => panic!("the program must be refused"),
    }
}

#[test]
fn variable_counter_has_sixteen_bits() {
    let mut table = LabelStore::new();
    for i in 0..65519u32 {
        assert_eq!(table.get(&format!("v{}", i)), Ok((16 + i) as u16));
    }
    assert_eq!(table.next_variable(), 65535);
    assert_eq!(
        table.get("one_more"),
        Err("Variables exceed the 16-bit address counter".to_string())
    );
    assert_eq!(table.get("v0"), Ok(16));
    assert_eq!(table.next_variable(), 65535);
}

#[test]
fn every_refused_line_is_reported_with_its_place() {
    let text = "@1\nD=Q\n  // fine\n@40000\nM=D;JXX";
    assert_eq!(
        Assembly::diagnose(text),
        vec![
            Diagnostic { start: 3, end: 6, message: "Unkown Compute command Q".to_string() },
            Diagnostic {
                start: 17,
                end: 23,
                message: "Value 40000 is too large to be represented.".to_string()
            },
            Diagnostic { start: 24, end: 31, message: "Unkown Jump condition JXX".to_string() },
        ]
    );
    assert_eq!(words_of_source(text), Err("Unkown Compute command Q".to_string()));
    assert_eq!(Assembly::diagnose("@1\nD=A\n"), vec![]);
}
