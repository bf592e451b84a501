use sml_assembler::assembler::{asm_transformer, assemble, format_image};
use sml_assembler::function_parser::{parser, ParserError, ParserResult};
use sml_assembler::instruction::lookup;
use sml_assembler::utils::{
    dec_to_hex_push, is_address, is_n_digit_hexadecimal_with_prefix, is_register, parse_address,
    parse_register,
};

fn bits_of(line: &str) -> Vec<u8> {
    match parser(line, 256) {
        Ok(Some(ParserResult { bits, .. })) => bits,
        other => panic!("unexpected result for {:?}: {:?}", line, other),
    }
}

fn is_invalid(line: &str, limit: usize) -> bool {
    matches!(parser(line, limit), Err(ParserError::InvalidFormat(_)))
}

fn lines(text: &[&str]) -> Vec<String> {
    text.iter().map(|s| s.to_string()).collect()
}

#[test]
fn every_mnemonic_starts_with_its_opcode() {
    let cases: [(&str, u8); 12] = [
        ("load R1, [0x0A]", 0x01),
        ("loadi R1, 0x1F", 0x02),
        ("store R1, [0x20]", 0x03),
        ("move R1, R2", 0x04),
        ("add R1, R2, R3", 0x05),
        ("addf R1, R2, R3", 0x06),
        ("or R1, R2, R3", 0x07),
        ("and R1, R2, R3", 0x08),
        ("xor R1, R2, R3", 0x09),
        ("rotate R1, 0x3", 0x0A),
        ("jump R0, [0x10]", 0x0B),
        ("halt", 0x0C),
    ];
    for (line, code) in cases {
        let bits = bits_of(line);
        assert_eq!(bits[0], code, "{}", line);
        assert_eq!(bits.len(), 4, "{}", line);
    }
}

#[test]
fn load_small_address_gets_a_leading_zero() {
    assert_eq!(bits_of("load R1, [0x0A]"), vec![0x01, 1, 0, 0x0A]);
}

#[test]
fn halt_is_opcode_and_padding() {
    assert_eq!(bits_of("halt"), vec![0x0C, 0, 0, 0]);
    let image = assemble(&lines(&["halt"])).unwrap();
    assert_eq!(image[0], 0xC0);
    assert_eq!(image[1], 0x00);
    assert_eq!(asm_transformer(&lines(&["halt"])).unwrap(), "c0");
}

#[test]
fn directive_moves_the_cursor() {
    match parser("0x05: loadi R2, 0x1F", 256) {
        Ok(Some(r)) => {
            assert_eq!(r.address, Some(5));
            assert_eq!(r.bits, vec![0x02, 2, 1, 0x0F]);
        }
        other => panic!("{:?}", other),
    }
    let image = assemble(&lines(&["0x05: loadi R2, 0x1F"])).unwrap();
    assert_eq!(image[5], 0x22);
    assert_eq!(image[6], 0x1F);
    assert!(image[..5].iter().all(|b| *b == 0));
}

#[test]
fn directive_beyond_the_space_is_out_of_range() {
    assert!(matches!(parser("0x05: halt", 5), Err(ParserError::OutOfRange(_))));
    assert!(matches!(parser("0x04: halt", 5), Ok(Some(_))));
    // Three hex digits are not a directive at all.
    assert!(is_invalid("0x100: halt", 256));
    assert!(is_invalid("5: halt", 256));
}

#[test]
fn unknown_mnemonic_is_named() {
    match parser("foo R1", 256) {
        Err(ParserError::InvalidFormat(d)) => {
            assert_eq!(d, "Instruction \"foo\" is not valid.");
            assert!(d.contains("foo"));
        }
        other => panic!("{:?}", other),
    }
    let e = parser("foo R1", 256).unwrap_err();
    assert_eq!(e.message(), "Invalid format: Instruction \"foo\" is not valid.");
}

#[test]
fn assembling_twice_gives_the_same_text() {
    let src = lines(&["loadi R1, 0x3A", "0x10: store R1, [0x40]", "halt"]);
    let a = asm_transformer(&src).unwrap();
    let b = asm_transformer(&src).unwrap();
    assert_eq!(a, b);
    assert_eq!(a, "213a00000000000000000000000000003140c0");
}

#[test]
fn zero_image_formats_empty() {
    assert_eq!(format_image(&vec![0u8; 256]), "");
    assert_eq!(asm_transformer(&lines(&[])).unwrap(), "");
}

#[test]
fn trailing_c_keeps_a_zero() {
    let mut image = vec![0u8; 256];
    image[3] = 0x0C;
    assert_eq!(format_image(&image), "0000000c0");
    image[3] = 0x1A;
    assert_eq!(format_image(&image), "0000001a");
    image[255] = 0x10;
    assert_eq!(format_image(&image).len(), 511);
}

#[test]
fn padding_shifts_operands_right() {
    assert_eq!(bits_of("move R1, R2"), vec![0x04, 0, 1, 2]);
    assert_eq!(bits_of("rotate R3, 0x4"), vec![0x0A, 3, 0, 4]);
    assert!(is_invalid("rotate R3, R4", 256));
    assert!(is_invalid("move R1, 0x2", 256));
}

#[test]
fn comments_and_blank_lines() {
    assert!(matches!(parser("", 256), Ok(None)));
    assert!(matches!(parser("   ; only a comment", 256), Ok(None)));
    assert!(matches!(parser("0x10:", 256), Ok(None)));
    assert_eq!(bits_of("  add R1, R2, R3 ; sum"), vec![0x05, 1, 2, 3]);
    assert_eq!(bits_of("add\tR1 ,R2,  R3"), vec![0x05, 1, 2, 3]);
}

#[test]
fn operand_count_is_checked() {
    assert!(is_invalid("halt R1", 256));
    assert!(is_invalid("load R1", 256));
    assert!(is_invalid("load", 256));
    assert!(is_invalid("add R1, R2", 256));
    assert!(is_invalid("add R1, R2, R3, R4", 256));
    assert!(is_invalid("load R1,", 256));
}

#[test]
fn registers_keep_their_low_nibble() {
    assert_eq!(bits_of("add R10, R15, R0"), vec![0x05, 10, 15, 0]);
    assert_eq!(bits_of("add R17, R255, R+5"), vec![0x05, 1, 15, 5]);
    assert!(is_invalid("add R256, R1, R1", 256));
    assert!(is_invalid("add r1, R1, R1", 256));
    assert!(is_invalid("add R, R1, R1", 256));
}

#[test]
fn large_bytes_split_into_nibbles() {
    assert_eq!(bits_of("loadi R1, 0x3A"), vec![0x02, 1, 3, 10]);
    assert_eq!(bits_of("jump R1, [0xfF]"), vec![0x0B, 1, 15, 15]);
    assert!(is_invalid("loadi R1, 0x3", 256));
    assert!(is_invalid("loadi R1, 0X3A", 256));
    assert!(is_invalid("load R1, 0x3A", 256));
}

#[test]
fn failure_reports_the_line() {
    let e = asm_transformer(&lines(&["halt", "", "bad R1"])).unwrap_err();
    assert_eq!(e.line_number, 3);
    assert!(matches!(e.error, ParserError::InvalidFormat(_)));
}

#[test]
fn later_lines_overwrite_and_cursor_wraps() {
    let image = assemble(&lines(&["halt", "0x00: loadi R1, 0x22"])).unwrap();
    assert_eq!(image[0], 0x21);
    assert_eq!(image[1], 0x22);
    let image = assemble(&lines(&["0xFF: loadi R1, 0x22", "halt"])).unwrap();
    assert_eq!(image[255], 0x21);
    assert_eq!(image[0], 0x22);
    assert_eq!(image[1], 0xC0);
}

#[test]
fn operand_recognisers() {
    assert!(is_n_digit_hexadecimal_with_prefix("0x1F", 2));
    assert!(!is_n_digit_hexadecimal_with_prefix("0x1G", 2));
    assert!(is_n_digit_hexadecimal_with_prefix("0xa", 1));
    assert!(is_register("R7"));
    assert!(!is_register("R"));
    assert!(is_address("[0x0A]"));
    assert!(!is_address("[0x0A"));
    assert_eq!(parse_register("R18"), Some(2));
    assert_eq!(parse_register("X1"), None);
    assert_eq!(parse_address("[0x3c]"), Some(0x3C));
    assert_eq!(parse_address("0x3c"), None);
}

#[test]
fn byte_to_nibbles() {
    let mut v = vec![9u8];
    dec_to_hex_push(0x3A, &mut v);
    assert_eq!(v, vec![9, 3, 10]);
    dec_to_hex_push(0x05, &mut v);
    assert_eq!(v, vec![9, 3, 10, 0, 5]);
}

#[test]
fn table_lookup() {
    let ins = lookup("rotate").unwrap();
    assert_eq!(ins.instruction_code, 0x0A);
    assert_eq!(ins.parameter.argument_numbers, 2);
    assert_eq!(ins.parameter.args.len(), 3);
    assert!(lookup("Load").is_none());
}
