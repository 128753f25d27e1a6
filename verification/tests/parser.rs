use analyze::instruction::{Instruction, InvalidInstruction};

#[test]
fn test_parse() -> Result<(), InvalidInstruction> {
    let i = Instruction::from_str("EXC 0D OK | 00 04 2E")?;

    assert_eq!(i.exception(), 0xd);
    assert_eq!(i.bytes(), &[0x00, 0x04, 0x2e]);

    Ok(())
}

#[test]
fn parse_accepts_lowercase_hex() -> Result<(), InvalidInstruction> {
    let i = Instruction::from_str("EXC 0d OK | 00 04 2e")?;

    assert_eq!(i.exception(), 0xd);
    assert_eq!(i.bytes(), &[0x00, 0x04, 0x2e]);
    assert_eq!(i.len(), 3);

    Ok(())
}

#[test]
fn parse_rejects_missing_bytes() {
    assert_eq!(
        Instruction::from_str("EXC 0D OK |"),
        Err(InvalidInstruction::default())
    );
}

#[test]
fn parse_rejects_non_hex_exception() {
    assert_eq!(
        Instruction::from_str("EXC ZZ OK | 00"),
        Err(InvalidInstruction::default())
    );
}

#[test]
fn parse_rejects_wrong_tag() {
    assert_eq!(
        Instruction::from_str("EXD 0D OK | 00"),
        Err(InvalidInstruction::default())
    );
    assert_eq!(
        Instruction::from_str("EXC 0D KO | 00"),
        Err(InvalidInstruction::default())
    );
}

#[test]
fn parse_rejects_trailing_content() {
    assert_eq!(
        Instruction::from_str("EXC 0D OK | 00 04 2E trailing"),
        Err(InvalidInstruction::default())
    );
    assert_eq!(
        Instruction::from_str("EXC 0D OK | 00 "),
        Err(InvalidInstruction::default())
    );
    assert_eq!(
        Instruction::from_str("EXC 0D OK | 00  04"),
        Err(InvalidInstruction::default())
    );
}

#[test]
fn parse_rejects_out_of_range_values() {
    // The exception parses as hex but violates the construction bound.
    assert_eq!(
        Instruction::from_str("EXC 10 OK | 00"),
        Err(InvalidInstruction::default())
    );
    // Sixteen bytes exceed the longest representable instruction.
    assert_eq!(
        Instruction::from_str(
            "EXC 0D OK | 00 01 02 03 04 05 06 07 08 09 0a 0b 0c 0d 0e 0f"
        ),
        Err(InvalidInstruction::default())
    );
}

#[test]
fn parse_accepts_longest_instruction() -> Result<(), InvalidInstruction> {
    let i = Instruction::from_str("EXC 0F OK | 00 01 02 03 04 05 06 07 08 09 0a 0b 0c 0d 0e")?;
    assert_eq!(i.exception(), 0xf);
    assert_eq!(i.len(), 15);
    Ok(())
}
