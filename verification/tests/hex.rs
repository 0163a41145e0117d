use nand2tetris::hex::Hex;

#[test]
fn words_render_as_sixteen_binary_digits() {
    let hex = Hex { instructions: vec![0, 1, 0x8000, 0xFFFF, 0x4000, 0b1110000010010000] };
    assert_eq!(
        hex.render(),
        "0000000000000000\n0000000000000001\n1000000000000000\n1111111111111111\n0100000000000000\n1110000010010000\n"
    );
}

#[test]
fn no_words_render_as_nothing() {
    assert_eq!(Hex { instructions: Vec::new() }.render(), "");
}
