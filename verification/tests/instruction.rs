use analyze::instruction::{Instruction, InterpolateAllIterator, InterpolateOneIterator, InvalidInstruction};

fn collect_one(mut it: InterpolateOneIterator) -> Vec<Instruction> {
    let mut out = Vec::new();
    while let Some(i) = it.next() {
        out.push(i);
    }
    out
}

fn collect_all(mut it: InterpolateAllIterator) -> Vec<Instruction> {
    let mut out = Vec::new();
    while let Some(i) = it.next() {
        out.push(i);
    }
    out
}

fn interpolate_instructions(instrs: &[Instruction]) -> Vec<Instruction> {
    collect_all(InterpolateAllIterator::new(instrs.to_vec()))
}

#[test]
fn instruction_test_ok_instruction() -> Result<(), InvalidInstruction> {
    let bytes = [0x0e, 0x01, 0xf9];
    let instr = Instruction::new(0xe, &bytes)?;

    assert_eq!(instr.exception(), 0x0e);
    assert_eq!(instr.len(), 3);
    assert_eq!(instr.bytes(), &bytes);

    Ok(())
}

#[test]
fn instruction_test_invalid_instruction() {
    // Invalid exception.
    assert_eq!(
        Instruction::new(0xff, &[0x90]),
        Err(InvalidInstruction::default())
    );

    // Instruction too long.
    assert_eq!(
        Instruction::new(0x0e, &[0; 16]),
        Err(InvalidInstruction::default())
    );
}

#[test]
fn instruction_test_instruction_iterator() -> Result<(), InvalidInstruction> {
    let instr_start = Instruction::new(0xe, &[0x0d, 0xff, 0xfe])?;
    let instr_end = Instruction::new(0xe, &[0x0f, 0x00, 0x00])?;

    let inbetween: Vec<Instruction> = collect_one(InterpolateOneIterator::new(instr_start, instr_end));

    assert_eq!(
        inbetween,
        vec![
            Instruction::new(0xe, &[0x0d, 0xff, 0xfe])?,
            Instruction::new(0xe, &[0x0d, 0xff, 0xff])?,
            Instruction::new(0xe, &[0x0e, 0x00, 0x00])?,
        ]
    );

    Ok(())
}

#[test]
fn types_test_ok_instruction() -> Result<(), InvalidInstruction> {
    let bytes = [0x0e, 0x01, 0xf9];
    let instr = Instruction::new(0xe, &bytes)?;

    assert_eq!(instr.exception(), 0x0e);
    assert_eq!(instr.len(), 3);
    assert_eq!(instr.bytes(), &bytes);

    Ok(())
}

#[test]
fn types_test_invalid_instruction() {
    assert_eq!(
        Instruction::new(0xff, &[0x90]),
        Err(InvalidInstruction::default())
    );

    assert_eq!(
        Instruction::new(0x0e, &[0; 16]),
        Err(InvalidInstruction::default())
    );
}

#[test]
fn interpolate_all_instructions_works() -> Result<(), InvalidInstruction> {
    let instr0 = Instruction::new(0xe, &[0x0d, 0xff, 0xfe])?;
    let instr1 = Instruction::new(0xe, &[0x0f, 0x00, 0x00])?;

    assert_eq!(interpolate_instructions(&[]), []);

    assert_eq!(interpolate_instructions(&[instr0.clone()]), [instr0.clone()]);

    assert_eq!(
        interpolate_instructions(&[instr0.clone(), instr1.clone()]),
        [
            instr0,
            Instruction::new(0xe, &[0x0d, 0xff, 0xff])?,
            Instruction::new(0xe, &[0x0e, 0x00, 0x00])?,
            instr1
        ]
    );

    Ok(())
}

#[test]
fn construction_round_trips_at_bounds() -> Result<(), InvalidInstruction> {
    // Largest accepted exception and byte count.
    let bytes = [0x90; 15];
    let instr = Instruction::new(0xf, &bytes)?;
    assert_eq!(instr.exception(), 0xf);
    assert_eq!(instr.len(), 15);
    assert_eq!(instr.bytes(), &bytes);

    // The empty byte sequence is accepted too.
    let empty = Instruction::new(0x0, &[])?;
    assert_eq!(empty.exception(), 0x0);
    assert_eq!(empty.len(), 0);
    assert_eq!(empty.bytes(), &[] as &[u8]);
    assert_eq!(empty.all_bytes(), &[0u8; 15] as &[u8]);

    Ok(())
}

#[test]
fn construction_rejects_first_out_of_range() {
    // The smallest rejected exception.
    assert_eq!(Instruction::new(16, &[0x90]), Err(InvalidInstruction::default()));
}

#[test]
fn increment_reports_wrap() -> Result<(), InvalidInstruction> {
    let instr = Instruction::new(0x1, &[0x00, 0xff])?;

    let (no_wrap, _) = instr.increment(0);
    assert_eq!(no_wrap.bytes(), &[0x01, 0xff]);

    let (wrapped, _) = instr.increment(1);
    assert_eq!(wrapped.bytes(), &[0x00, 0x00]);
    assert_eq!(wrapped.exception(), 0x1);

    Ok(())
}

#[test]
fn single_entry_run_yields_exactly_one() -> Result<(), InvalidInstruction> {
    let instr = Instruction::new(0xe, &[0x0d, 0xff, 0xfe])?;
    let out = collect_one(InterpolateOneIterator::new_single(instr.clone()));
    assert_eq!(out, vec![instr]);
    Ok(())
}

#[test]
fn odometer_run_increases_and_skips_target() -> Result<(), InvalidInstruction> {
    let from = Instruction::new(0x2, &[0x01, 0xfe])?;
    let to = Instruction::new(0x2, &[0x02, 0x00])?;
    let out = collect_one(InterpolateOneIterator::new(from.clone(), to.clone()));

    assert_eq!(out, vec![from, Instruction::new(0x2, &[0x01, 0xff])?]);
    for pair in out.windows(2) {
        assert!(pair[0].all_bytes() < pair[1].all_bytes());
    }
    for i in &out {
        assert_ne!(i.all_bytes(), to.all_bytes());
    }
    Ok(())
}

#[test]
fn gap_fill_skips_duplicate_waypoint() -> Result<(), InvalidInstruction> {
    let a = Instruction::new(0x3, &[0x10, 0x20])?;
    let out = interpolate_instructions(&[a.clone(), a.clone()]);
    assert_eq!(out, vec![a]);
    Ok(())
}

#[test]
fn gap_fill_keeps_first_exception_while_interpolating() -> Result<(), InvalidInstruction> {
    // Interpolated entries carry the exception of the waypoint that
    // opened the gap; the next waypoint's own exception appears only
    // when that waypoint itself is emitted.
    let instr0 = Instruction::new(0x1, &[0x01])?;
    let instr1 = Instruction::new(0x2, &[0x03])?;
    let out = interpolate_instructions(&[instr0.clone(), instr1.clone()]);
    assert_eq!(
        out,
        vec![instr0, Instruction::new(0x1, &[0x02])?, instr1]
    );
    Ok(())
}

#[test]
fn reachable_decides_waypoint_consistency() -> Result<(), InvalidInstruction> {
    let from = Instruction::new(0x1, &[0x0d, 0xff, 0xfe])?;
    let ahead = Instruction::new(0x1, &[0x0f, 0x00, 0x00])?;
    let behind = Instruction::new(0x1, &[0x0d, 0x00, 0x00])?;
    let off_run = Instruction::new(0x1, &[0x0e, 0x00, 0x01])?;

    assert!(analyze::instruction::reachable(&from, &ahead));
    assert!(!analyze::instruction::reachable(&from, &behind));
    // Once the run has carried into the first byte, the later bytes stay
    // zero; a target off that path is never compared equal.
    assert!(!analyze::instruction::reachable(&from, &off_run));
    Ok(())
}

#[test]
fn waypoints_validity_check_works() -> Result<(), InvalidInstruction> {
    let a = Instruction::new(0x1, &[0x0d, 0xff, 0xfe])?;
    let b = Instruction::new(0x1, &[0x0f, 0x00, 0x00])?;
    let ff_tail = Instruction::new(0x1, &[0x0d, 0xff])?;

    assert!(analyze::instruction::waypoints_valid(&vec![]));
    assert!(analyze::instruction::waypoints_valid(&vec![a.clone(), b.clone()]));
    // Out of order: the second entry is behind the first.
    assert!(!analyze::instruction::waypoints_valid(&vec![b.clone(), a.clone()]));
    // The closing single-entry run needs a last byte below 0xff.
    assert!(!analyze::instruction::waypoints_valid(&vec![ff_tail]));
    Ok(())
}
