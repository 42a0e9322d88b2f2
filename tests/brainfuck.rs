use esobox::brainfuck::{into_basic_blocks, run, Action, Config, Error, Machine, Status, TapePolicy};

fn run_wrapping(code: &str, input: &[u8], output: &mut Vec<u8>) -> Result<Status, Error> {
    run(code, input, output, Config::wrapping(), u64::MAX)
}

#[test]
fn test_printer_1() {
    let code = "+[[-<]-[->]<-]<.<<<<.>>>>-.<<-.<.>>.<<<+++.>>>---.<++.";
    let mut stdout: Vec<u8> = vec![];
    let res = run_wrapping(code, &b""[..], &mut stdout);
    assert!(res.is_ok());
    assert_eq!(stdout, b"brainfuck");
    assert_eq!(res, Ok(Status::Halted));
}

#[test]
fn test_printer_2() {
    let code = "++[>+++++<-]++[>>>+++++<<<-]++++++[>>+++++++<<-]>[>..........>.<<-]";
    let mut stdout: Vec<u8> = vec![];
    let res = run_wrapping(code, &b""[..], &mut stdout);
    assert!(res.is_ok());
    assert_eq!(stdout, b"**********\n**********\n**********\n**********\n**********\n**********\n**********\n**********\n**********\n**********\n");
}

#[test]
fn test_io_1() {
    let code = "+[,>++++[<-------->-]<]>++++[<++++++++>-]<[>,]++++[<-------->-]<[[-]++++[<-------->-]<]<[<]>>[.>]";
    let testcases = [
        &b"Samantha Vee Hills"[..],
        b"Bob Dillinger",
        b"John Jacob Jingleheimer Schmidt",
        b"Jose Mario Carasco-Williams",
        b"James Alfred Van Allen",
    ];
    let outputs = [
        &b"Vee"[..],
        b"",
        b"Jacob Jingleheimer",
        b"Mario",
        b"Alfred Van",
    ];
    for (testcase, expected) in testcases.into_iter().zip(outputs) {
        let mut stdout: Vec<u8> = vec![];
        let res = run_wrapping(code, testcase, &mut stdout);
        assert!(res.is_ok());
        assert_eq!(stdout, expected);
    }
}

#[test]
fn comments_only_halt_at_once() {
    let mut out: Vec<u8> = vec![];
    let res = run("hello world and no commands here", b"abc", &mut out, Config::wrapping(), 1);
    assert_eq!(res, Ok(Status::Halted));
    assert!(out.is_empty());
    let blocks = into_basic_blocks("just text").unwrap();
    assert_eq!(blocks.len(), 1);
    assert!(blocks[0].instrs.is_empty());
    assert_eq!(blocks[0].jz, None);
    assert_eq!(blocks[0].jnz, None);
}

#[test]
fn unmatched_open_bracket() {
    let mut out: Vec<u8> = vec![];
    let res = run("+[[-]", b"", &mut out, Config::wrapping(), u64::MAX);
    assert_eq!(res, Err(Error::SyntaxError('[')));
    assert!(out.is_empty());
}

#[test]
fn unmatched_close_bracket() {
    let mut out: Vec<u8> = vec![];
    let res = run("+.]][", b"", &mut out, Config::wrapping(), u64::MAX);
    assert_eq!(res, Err(Error::SyntaxError(']')));
    assert!(out.is_empty());
}

#[test]
fn block_targets() {
    let blocks = into_basic_blocks("+[->+<]>.").unwrap();
    assert_eq!(blocks.len(), 3);
    assert_eq!(blocks[0].instrs.len(), 1);
    assert_eq!((blocks[0].jz, blocks[0].jnz), (Some(2), Some(1)));
    assert_eq!(blocks[1].instrs.len(), 4);
    assert_eq!((blocks[1].jz, blocks[1].jnz), (Some(2), Some(1)));
    assert_eq!(blocks[2].instrs.len(), 2);
    assert_eq!((blocks[2].jz, blocks[2].jnz), (None, None));
}

#[test]
fn increment_wraps_after_256() {
    let code = "+".repeat(256) + ".-.+.";
    let mut out: Vec<u8> = vec![];
    let res = run_wrapping(&code, b"", &mut out);
    assert_eq!(res, Ok(Status::Halted));
    assert_eq!(out, vec![0u8, 255, 0]);
}

#[test]
fn wraparound_tape_is_a_ring() {
    let mut out: Vec<u8> = vec![];
    let res = run("<+.>.>+<<.", b"", &mut out, Config::wrapping(), u64::MAX);
    assert_eq!(res, Ok(Status::Halted));
    assert_eq!(out, vec![1u8, 0, 1]);
    let mut out: Vec<u8> = vec![];
    let small = Config { tape_length: 3, policy: TapePolicy::Wraparound };
    let res = run(">>>+<<<.", b"", &mut out, small, u64::MAX);
    assert_eq!(res, Ok(Status::Halted));
    assert_eq!(out, vec![1u8]);
}

#[test]
fn bounded_tape_refuses_moves_past_ends() {
    let mut out: Vec<u8> = vec![];
    let res = run("+.<", b"", &mut out, Config::bounded(), u64::MAX);
    assert_eq!(res, Err(Error::PointerOutOfBounds('<')));
    assert_eq!(out, vec![1u8]);
    let mut out: Vec<u8> = vec![];
    let small = Config { tape_length: 2, policy: TapePolicy::BoundsChecked };
    let res = run(">>", b"", &mut out, small, u64::MAX);
    assert_eq!(res, Err(Error::PointerOutOfBounds('>')));
}

#[test]
fn read_at_end_of_input_keeps_cell() {
    let mut out: Vec<u8> = vec![];
    let res = run("+++,.,.", b"A", &mut out, Config::wrapping(), u64::MAX);
    assert_eq!(res, Ok(Status::Halted));
    assert_eq!(out, b"AA");
    let mut out: Vec<u8> = vec![];
    let res = run("+++,.", b"", &mut out, Config::wrapping(), u64::MAX);
    assert_eq!(res, Ok(Status::Halted));
    assert_eq!(out, vec![3u8]);
}

#[test]
fn endless_loop_runs_out_of_fuel() {
    let mut out: Vec<u8> = vec![];
    let res = run("+[.]", b"", &mut out, Config::wrapping(), 10);
    assert_eq!(res, Ok(Status::OutOfFuel));
    assert!(!out.is_empty());
}

#[test]
fn machine_streams_reads_and_writes() {
    let program = into_basic_blocks(",+.").unwrap();
    let mut m = Machine::new(program, Config::wrapping());
    assert_eq!(m.step(), Action::Read);
    m.feed(Some(b'a'));
    assert_eq!(m.step(), Action::Continue);
    assert_eq!(m.step(), Action::Write(b'b'));
    assert_eq!(m.step(), Action::Halt);
}

#[test]
fn decrement_wraps_below_zero() {
    let mut out: Vec<u8> = vec![];
    let res = run("-.+.", b"", &mut out, Config::wrapping(), u64::MAX);
    assert_eq!(res, Ok(Status::Halted));
    assert_eq!(out, vec![255u8, 0]);
}
