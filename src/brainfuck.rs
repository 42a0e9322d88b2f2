//! An interpreter for Brainfuck.
//!
//! Source text is compiled into basic blocks linked by branch targets, which
//! a tape machine then walks. Cells are 8-bit and wrap; the tape either wraps
//! around as a ring or fails when the cursor would leave it. On end of input,
//! `,` leaves the current cell unchanged.
use vstd::prelude::*;

verus! {

/// A leaf instruction of a compiled program.
#[derive(Debug, Clone, Copy, PartialEq, Eq, Structural)]
pub enum Cmd {
    Inc,
    Dec,
    Left,
    Right,
    Getc,
    Putc,
}

/// Why a program could not be compiled or run.
#[derive(Debug, Clone, Copy, PartialEq, Eq, Structural)]
pub enum Error {
    /// The source holds an unmatched bracket, given here.
    SyntaxError(char),
    /// The cursor would leave a bounded tape, moving in the direction given
    /// here (`<` or `>`).
    PointerOutOfBounds(char),
}

/// A run of leaf instructions, followed by a branch on the current cell:
/// to `jz` when it is zero, to `jnz` otherwise. An absent target halts.
#[derive(Debug)]
pub struct BasicBlock {
    pub instrs: Vec<Cmd>,
    pub jz: Option<usize>,
    pub jnz: Option<usize>,
}

/// The mathematical value of a basic block.
pub struct BlockModel {
    pub instrs: Seq<Cmd>,
    pub jz: Option<usize>,
    pub jnz: Option<usize>,
}

impl View for BasicBlock {
    type V = BlockModel;

    open spec fn view(&self) -> BlockModel {
        BlockModel { instrs: self.instrs@, jz: self.jz, jnz: self.jnz }
    }
}

/// The blocks of a compiled program, as values.
pub open spec fn program_view(p: Seq<BasicBlock>) -> Seq<BlockModel> {
    p.map_values(|b: BasicBlock| b@)
}

/// Every branch target names a block of the program, and there is an entry
/// block.
pub open spec fn well_formed(p: Seq<BlockModel>) -> bool {
    &&& p.len() > 0
    &&& forall|i: int|
        0 <= i < p.len() ==> {
            &&& (#[trigger] p[i]).jz matches Some(t) ==> t < p.len()
            &&& p[i].jnz matches Some(t) ==> t < p.len()
        }
}

/// The leaf instruction that a character stands for, if any.
pub open spec fn command(c: char) -> Option<Cmd> {
    if c == '+' {
        Some(Cmd::Inc)
    } else if c == '-' {
        Some(Cmd::Dec)
    } else if c == '<' {
        Some(Cmd::Left)
    } else if c == '>' {
        Some(Cmd::Right)
    } else if c == ',' {
        Some(Cmd::Getc)
    } else if c == '.' {
        Some(Cmd::Putc)
    } else {
        None
    }
}

/// The compiler's state after reading a prefix of the source: the sealed
/// blocks, the indices of the blocks that end in a still open `[`, the
/// instructions of the block in progress, and whether a `]` came with no
/// `[` open.
pub struct Scan {
    pub blocks: Seq<BlockModel>,
    pub open: Seq<usize>,
    pub cur: Seq<Cmd>,
    pub stray: bool,
}

/// The compiler's state after one more character.
pub open spec fn scan_char(st: Scan, c: char) -> Scan {
    let next = (st.blocks.len() + 1) as usize;
    if st.stray {
        st
    } else if c == '[' {
        Scan {
            blocks: st.blocks.push(BlockModel { instrs: st.cur, jz: None, jnz: Some(next) }),
            open: st.open.push(st.blocks.len() as usize),
            cur: Seq::empty(),
            stray: false,
        }
    } else if c == ']' {
        if st.open.len() == 0 {
            Scan { blocks: st.blocks, open: st.open, cur: st.cur, stray: true }
        } else {
            let p = st.open.last();
            let patched = BlockModel {
                instrs: st.blocks[p as int].instrs,
                jz: Some(next),
                jnz: st.blocks[p as int].jnz,
            };
            Scan {
                blocks: st.blocks.update(p as int, patched).push(
                    BlockModel { instrs: st.cur, jz: Some(next), jnz: Some((p + 1) as usize) },
                ),
                open: st.open.drop_last(),
                cur: Seq::empty(),
                stray: false,
            }
        }
    } else {
        match command(c) {
            Some(cmd) => Scan { blocks: st.blocks, open: st.open, cur: st.cur.push(cmd), stray: false },
            None => st,
        }
    }
}

/// The compiler's state after reading all of `s`.
pub open spec fn scan(s: Seq<char>) -> Scan
    decreases s.len(),
{
    if s.len() == 0 {
        Scan { blocks: Seq::empty(), open: Seq::empty(), cur: Seq::empty(), stray: false }
    } else {
        scan_char(scan(s.drop_last()), s.last())
    }
}

/// The program that `s` compiles to, or the unmatched bracket.
pub open spec fn compile(s: Seq<char>) -> Result<Seq<BlockModel>, Error> {
    let st = scan(s);
    if st.stray {
        Err(Error::SyntaxError(']'))
    } else if st.open.len() > 0 {
        Err(Error::SyntaxError('['))
    } else {
        Ok(st.blocks.push(BlockModel { instrs: st.cur, jz: None, jnz: None }))
    }
}

/// Once a `]` has come with no `[` open, the rest of the source cannot mend it.
proof fn lemma_stray_persists(s: Seq<char>, k: int)
    requires
        0 <= k <= s.len(),
        scan(s.take(k)).stray,
    ensures
        scan(s).stray,
    decreases s.len() - k,
{
    if k == s.len() {
        assert(s.take(k) == s);
    } else {
        assert(s.take(k + 1).drop_last() == s.take(k));
        lemma_stray_persists(s, k + 1);
    }
}

/// Compiles source text into basic blocks; characters other than the eight
/// commands are skipped.
pub fn into_basic_blocks(source: &str) -> (r: Result<Vec<BasicBlock>, Error>)
    ensures
        match r {
            Ok(p) => compile(source@) == Ok::<Seq<BlockModel>, Error>(program_view(p@)),
            Err(e) => compile(source@) == Err::<Seq<BlockModel>, Error>(e),
        },
        r matches Ok(p) ==> well_formed(program_view(p@)),
{
    // The character count bounds every block index below.
    let n = source.unicode_len();
    let mut bbno_stack: Vec<usize> = Vec::new();
    let mut basic_blocks: Vec<BasicBlock> = Vec::new();
    let mut cur_basic_block: Vec<Cmd> = Vec::new();
    for c in it: source.chars()
        invariant
            n == source@.len(),
            it.seq() == source@,
            basic_blocks.len() <= it.index(),
            ({
                let st = scan(source@.take(it.index() as int));
                &&& !st.stray
                &&& st.blocks == program_view(basic_blocks@)
                &&& st.open == bbno_stack@
                &&& st.cur == cur_basic_block@
            }),
            forall|k: int| 0 <= k < bbno_stack.len() ==> bbno_stack@[k] < basic_blocks.len(),
            forall|i: int|
                0 <= i < basic_blocks.len() ==> {
                    &&& (#[trigger] basic_blocks@[i]).jz matches Some(t) ==> t <= basic_blocks.len()
                    &&& basic_blocks@[i].jnz matches Some(t) ==> t <= basic_blocks.len()
                },
    {
        proof {
            assert(source@.take(it.index() + 1).drop_last() == source@.take(it.index() as int));
        }
        let cur_bb_id = basic_blocks.len();
        if c == '+' {
            cur_basic_block.push(Cmd::Inc);
        } else if c == '-' {
            cur_basic_block.push(Cmd::Dec);
        } else if c == '<' {
            cur_basic_block.push(Cmd::Left);
        } else if c == '>' {
            cur_basic_block.push(Cmd::Right);
        } else if c == ',' {
            cur_basic_block.push(Cmd::Getc);
        } else if c == '.' {
            cur_basic_block.push(Cmd::Putc);
        } else if c == '[' {
            // the loop body starts in the next block; the exit target is
            // patched in when the matching `]` is found
            let instrs = cur_basic_block;
            cur_basic_block = Vec::new();
            basic_blocks.push(BasicBlock { instrs, jz: None, jnz: Some(cur_bb_id + 1) });
            bbno_stack.push(cur_bb_id);
        } else if c == ']' {
            let popped = match bbno_stack.pop() {
                Some(p) => p,
                None => {
                    proof {
                        lemma_stray_persists(source@, it.index() + 1);
                    }
                    return Err(Error::SyntaxError(']'));
                },
            };
            let instrs = cur_basic_block;
            cur_basic_block = Vec::new();
            basic_blocks.push(
                BasicBlock { instrs, jz: Some(cur_bb_id + 1), jnz: Some(popped + 1) },
            );
            basic_blocks[popped].jz = Some(cur_bb_id + 1);
        }
        proof {
            assert(program_view(basic_blocks@) == scan(
                source@.take(it.index() + 1),
            ).blocks);
        }
    }
    proof {
        assert(source@.take(source@.len() as int) == source@);
    }
    if bbno_stack.len() > 0 {
        return Err(Error::SyntaxError('['));
    }
    basic_blocks.push(BasicBlock { instrs: cur_basic_block, jz: None, jnz: None });
    proof {
        assert(program_view(basic_blocks@) == compile(source@)->Ok_0);
    }
    Ok(basic_blocks)
}

} // verus!

verus! {

/// How the cursor behaves at the ends of the tape.
#[derive(Debug, Clone, Copy, PartialEq, Eq, Structural)]
pub enum TapePolicy {
    /// The tape is a ring: past one end lies the other.
    Wraparound,
    /// Moving past either end fails with `PointerOutOfBounds`.
    BoundsChecked,
}

/// The tape a program runs on.
#[derive(Debug, Clone, Copy, PartialEq, Eq, Structural)]
pub struct Config {
    pub tape_length: usize,
    pub policy: TapePolicy,
}

impl Config {
    /// A ring of 65536 cells.
    pub fn wrapping() -> (c: Config)
        ensures
            c.tape_length == 65536,
            c.policy == TapePolicy::Wraparound,
    {
        Config { tape_length: 65536, policy: TapePolicy::Wraparound }
    }

    /// 30000 cells, with moves past either end refused.
    pub fn bounded() -> (c: Config)
        ensures
            c.tape_length == 30000,
            c.policy == TapePolicy::BoundsChecked,
    {
        Config { tape_length: 30000, policy: TapePolicy::BoundsChecked }
    }
}

/// What a single step of the machine asks of its driver.
#[derive(Debug, Clone, Copy, PartialEq, Eq, Structural)]
pub enum Action {
    /// Nothing: step again.
    Continue,
    /// The next instruction reads a byte: hand it over with `feed`.
    Read,
    /// Write this byte to the output.
    Write(u8),
    /// The program has ended.
    Halt,
    /// The program has failed.
    Fail(Error),
}

/// The machine's state, as values: the current block, the index of the next
/// instruction in it, the tape and the cursor.
pub struct State {
    pub block: nat,
    pub pc: nat,
    pub tape: Seq<u8>,
    pub cursor: nat,
}

/// A cell after `+`.
pub open spec fn inc(b: u8) -> u8 {
    ((b + 1) % 256) as u8
}

/// A cell after `-`.
pub open spec fn dec(b: u8) -> u8 {
    ((b + 255) % 256) as u8
}

/// Where the cursor lands after a move (right if `right`), or `None` where
/// a bounded tape refuses the move.
pub open spec fn shift(cfg: Config, cursor: nat, right: bool) -> Option<nat> {
    let len = cfg.tape_length as nat;
    if right {
        if cursor + 1 < len {
            Some(cursor + 1)
        } else if cfg.policy == TapePolicy::Wraparound {
            Some(0)
        } else {
            None
        }
    } else {
        if cursor > 0 {
            Some((cursor - 1) as nat)
        } else if cfg.policy == TapePolicy::Wraparound {
            Some((len - 1) as nat)
        } else {
            None
        }
    }
}

/// The state in which every run starts: the entry block, a zeroed tape and
/// the cursor on its first cell.
pub open spec fn start(cfg: Config) -> State {
    State { block: 0, pc: 0, tape: Seq::new(cfg.tape_length as nat, |i: int| 0u8), cursor: 0 }
}

/// The state with the cursor moved to `c` and the next instruction up.
pub open spec fn moved(s: State, c: nat) -> State {
    State { block: s.block, pc: s.pc + 1, tape: s.tape, cursor: c }
}

/// The state with the current cell set to `b` and the next instruction up.
pub open spec fn stored(s: State, b: u8) -> State {
    State { block: s.block, pc: s.pc + 1, tape: s.tape.update(s.cursor as int, b), cursor: s.cursor }
}

/// One step of program `p`: the action it asks for and the state after it.
/// A step runs one instruction, or at the end of a block takes its branch;
/// a read waits for `feed` and leaves the state as it is.
pub open spec fn step_spec(p: Seq<BlockModel>, cfg: Config, s: State) -> (Action, State) {
    let blk = p[s.block as int];
    let cell = s.tape[s.cursor as int];
    if s.pc < blk.instrs.len() {
        match blk.instrs[s.pc as int] {
            Cmd::Inc => (Action::Continue, stored(s, inc(cell))),
            Cmd::Dec => (Action::Continue, stored(s, dec(cell))),
            Cmd::Left => match shift(cfg, s.cursor, false) {
                Some(c) => (Action::Continue, moved(s, c)),
                None => (Action::Fail(Error::PointerOutOfBounds('<')), s),
            },
            Cmd::Right => match shift(cfg, s.cursor, true) {
                Some(c) => (Action::Continue, moved(s, c)),
                None => (Action::Fail(Error::PointerOutOfBounds('>')), s),
            },
            Cmd::Getc => (Action::Read, s),
            Cmd::Putc => (Action::Write(cell), moved(s, s.cursor)),
        }
    } else {
        match if cell == 0 { blk.jz } else { blk.jnz } {
            Some(t) => (Action::Continue, State { block: t as nat, pc: 0, tape: s.tape, cursor: s.cursor }),
            None => (Action::Halt, s),
        }
    }
}

/// The state after a read that got `byte`; at end of input (`None`) the
/// cell keeps its value.
pub open spec fn feed_spec(s: State, byte: Option<u8>) -> State {
    match byte {
        Some(b) => stored(s, b),
        None => moved(s, s.cursor),
    }
}

/// A tape machine running a compiled program.
pub struct Machine {
    program: Vec<BasicBlock>,
    config: Config,
    block: usize,
    pc: usize,
    tape: Vec<u8>,
    cursor: usize,
}

impl Machine {
    /// The program being run.
    pub closed spec fn program(&self) -> Seq<BlockModel> {
        program_view(self.program@)
    }

    /// The tape configuration.
    pub closed spec fn config(&self) -> Config {
        self.config
    }

    /// The current state.
    pub closed spec fn state(&self) -> State {
        State { block: self.block as nat, pc: self.pc as nat, tape: self.tape@, cursor: self.cursor as nat }
    }

    /// The machine's invariant.
    pub closed spec fn wf(&self) -> bool {
        &&& well_formed(self.program())
        &&& self.tape@.len() == self.config.tape_length
        &&& self.cursor < self.tape@.len()
        &&& self.block < self.program@.len()
        &&& self.pc <= self.program@[self.block as int].instrs@.len()
    }

    /// A machine at the start of `program`.
    pub fn new(program: Vec<BasicBlock>, config: Config) -> (m: Machine)
        requires
            well_formed(program_view(program@)),
            config.tape_length > 0,
        ensures
            m.wf(),
            m.program() == program_view(program@),
            m.config() == config,
            m.state() == start(config),
    {
        let mut tape: Vec<u8> = Vec::new();
        while tape.len() < config.tape_length
            invariant
                tape.len() <= config.tape_length,
                forall|i: int| 0 <= i < tape.len() ==> tape@[i] == 0,
            decreases config.tape_length - tape.len(),
        {
            tape.push(0);
        }
        let m = Machine { program, config, block: 0, pc: 0, tape, cursor: 0 };
        assert(m.tape@ == start(config).tape);
        m
    }

    /// Runs one step: one instruction, or the branch at the end of a block.
    pub fn step(&mut self) -> (a: Action)
        requires
            old(self).wf(),
        ensures
            final(self).wf(),
            final(self).program() == old(self).program(),
            final(self).config() == old(self).config(),
            (a, final(self).state()) == step_spec(old(self).program(), old(self).config(), old(self).state()),
    {
        let ghost s = self.state();
        proof {
            assert(self.program()[self.block as int] == self.program@[self.block as int]@);
        }
        let cell = self.tape[self.cursor];
        if self.pc < self.program[self.block].instrs.len() {
            let cmd = self.program[self.block].instrs[self.pc];
            match cmd {
                Cmd::Inc => {
                    self.tape.set(self.cursor, cell.wrapping_add(1));
                    self.pc = self.pc + 1;
                    Action::Continue
                },
                Cmd::Dec => {
                    self.tape.set(self.cursor, cell.wrapping_sub(1));
                    self.pc = self.pc + 1;
                    Action::Continue
                },
                Cmd::Left => {
                    if self.cursor > 0 {
                        self.cursor = self.cursor - 1;
                    } else if self.config.policy == TapePolicy::Wraparound {
                        self.cursor = self.tape.len() - 1;
                    } else {
                        return Action::Fail(Error::PointerOutOfBounds('<'));
                    }
                    self.pc = self.pc + 1;
                    Action::Continue
                },
                Cmd::Right => {
                    if self.cursor + 1 < self.tape.len() {
                        self.cursor = self.cursor + 1;
                    } else if self.config.policy == TapePolicy::Wraparound {
                        self.cursor = 0;
                    } else {
                        return Action::Fail(Error::PointerOutOfBounds('>'));
                    }
                    self.pc = self.pc + 1;
                    Action::Continue
                },
                Cmd::Getc => Action::Read,
                Cmd::Putc => {
                    self.pc = self.pc + 1;
                    Action::Write(cell)
                },
            }
        } else {
            let target = if cell == 0 {
                self.program[self.block].jz
            } else {
                self.program[self.block].jnz
            };
            match target {
                Some(t) => {
                    proof {
                        assert(self.program()[self.block as int].jz == self.program@[self.block as int].jz);
                    }
                    self.block = t;
                    self.pc = 0;
                    Action::Continue
                },
                None => Action::Halt,
            }
        }
    }

    /// Completes a read with the byte that came in, or `None` at end of
    /// input.
    pub fn feed(&mut self, byte: Option<u8>)
        requires
            old(self).wf(),
            step_spec(old(self).program(), old(self).config(), old(self).state()).0 == Action::Read,
        ensures
            final(self).wf(),
            final(self).program() == old(self).program(),
            final(self).config() == old(self).config(),
            final(self).state() == feed_spec(old(self).state(), byte),
    {
        proof {
            assert(self.program()[self.block as int] == self.program@[self.block as int]@);
        }
        let len = self.program[self.block].instrs.len();
        assert(self.pc < len);
        if let Some(b) = byte {
            self.tape.set(self.cursor, b);
        }
        self.pc = self.pc + 1;
    }
}

} // verus!

verus! {

/// How a run that did not fail ended.
#[derive(Debug, Clone, Copy, PartialEq, Eq, Structural)]
pub enum Status {
    /// The program reached a halting branch.
    Halted,
    /// The step budget ran out first.
    OutOfFuel,
}

/// What a run comes to: its result, the bytes it wrote and the input it left
/// unread.
pub struct Trace {
    pub result: Result<Status, Error>,
    pub output: Seq<u8>,
    pub unread: Seq<u8>,
}

/// A run that ends at once, with `result`, having written nothing.
pub open spec fn ended(result: Result<Status, Error>, input: Seq<u8>) -> Trace {
    Trace { result, output: Seq::empty(), unread: input }
}

/// Runs program `p` from state `s` on `input` for at most `fuel` steps; a
/// read together with its byte is one step.
pub open spec fn exec(p: Seq<BlockModel>, cfg: Config, s: State, input: Seq<u8>, fuel: nat) -> Trace
    decreases fuel,
{
    if fuel == 0 {
        ended(Ok(Status::OutOfFuel), input)
    } else {
        let (a, next) = step_spec(p, cfg, s);
        let f = (fuel - 1) as nat;
        match a {
            Action::Continue => exec(p, cfg, next, input, f),
            Action::Read => if input.len() > 0 {
                exec(p, cfg, feed_spec(s, Some(input[0])), input.drop_first(), f)
            } else {
                exec(p, cfg, feed_spec(s, None), input, f)
            },
            Action::Write(b) => {
                let t = exec(p, cfg, next, input, f);
                Trace { result: t.result, output: seq![b] + t.output, unread: t.unread }
            },
            Action::Halt => ended(Ok(Status::Halted), input),
            Action::Fail(e) => ended(Err(e), input),
        }
    }
}

/// Compiles `source` and runs it on a fresh tape for at most `fuel` steps.
pub open spec fn run_spec(source: Seq<char>, input: Seq<u8>, cfg: Config, fuel: nat) -> Trace {
    match compile(source) {
        Ok(p) => exec(p, cfg, start(cfg), input, fuel),
        Err(e) => ended(Err(e), input),
    }
}

/// Compiles `source` and runs it on a fresh tape, reading from `input` and
/// appending what it writes to `output`, for at most `fuel` steps. Bytes
/// written before a failure stay written.
pub fn run(source: &str, input: &[u8], output: &mut Vec<u8>, config: Config, fuel: u64) -> (r: Result<Status, Error>)
    requires
        config.tape_length > 0,
    ensures
        r == run_spec(source@, input@, config, fuel as nat).result,
        final(output)@ == old(output)@ + run_spec(source@, input@, config, fuel as nat).output,
{
    let basic_blocks = match into_basic_blocks(source) {
        Ok(p) => p,
        Err(e) => {
            return Err(e);
        },
    };
    let mut m = Machine::new(basic_blocks, config);
    let ghost p = m.program();
    let ghost out0 = output@;
    let ghost total = exec(p, config, start(config), input@, fuel as nat);
    proof {
        assert(input@.skip(0) == input@);
    }
    let mut pos: usize = 0;
    let mut steps: u64 = 0;
    while steps < fuel
        invariant
            m.wf(),
            m.program() == p,
            m.config() == config,
            total == run_spec(source@, input@, config, fuel as nat),
            out0 == old(output)@,
            pos <= input.len(),
            steps <= fuel,
            exec(p, config, m.state(), input@.skip(pos as int), (fuel - steps) as nat).result == total.result,
            out0 + total.output == output@ + exec(p, config, m.state(), input@.skip(pos as int), (fuel - steps) as nat).output,
        decreases fuel - steps,
    {
        let ghost s = m.state();
        let ghost rest = input@.skip(pos as int);
        let ghost f = (fuel - steps - 1) as nat;
        let a = m.step();
        match a {
            Action::Continue => {},
            Action::Read => {
                if pos < input.len() {
                    proof {
                        assert(rest.drop_first() == input@.skip(pos + 1));
                    }
                    m.feed(Some(input[pos]));
                    pos = pos + 1;
                } else {
                    m.feed(None);
                }
            },
            Action::Write(b) => {
                proof {
                    let t = exec(p, config, m.state(), rest, f);
                    assert(out0 + total.output == output@.push(b) + t.output);
                }
                output.push(b);
            },
            Action::Halt => {
                proof {
                    assert(output@ + Seq::<u8>::empty() == output@);
                }
                return Ok(Status::Halted);
            },
            Action::Fail(e) => {
                proof {
                    assert(output@ + Seq::<u8>::empty() == output@);
                }
                return Err(e);
            },
        }
        steps = steps + 1;
    }
    proof {
        assert(output@ + Seq::<u8>::empty() == output@);
    }
    Ok(Status::OutOfFuel)
}

} // verus!
