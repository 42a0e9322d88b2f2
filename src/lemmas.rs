//! Facts about compiling and running programs, proved over the semantics
//! that `brainfuck` states.
use vstd::prelude::*;

use crate::brainfuck::{
    command, compile, dec, ended, exec, feed_spec, inc, moved, run_spec, scan, shift, start,
    step_spec, Action, BlockModel, Cmd, Config, Error, State, Status, TapePolicy,
};

verus! {

/// Whether a character means anything to the compiler.
pub open spec fn is_command_char(c: char) -> bool {
    command(c) is Some || c == '[' || c == ']'
}

/// Open brackets minus closing brackets in `s`.
pub open spec fn depth(s: Seq<char>) -> int
    decreases s.len(),
{
    if s.len() == 0 {
        0
    } else {
        depth(s.drop_last()) + if s.last() == '[' {
            1int
        } else if s.last() == ']' {
            -1int
        } else {
            0int
        }
    }
}

/// Some prefix of `s` closes a bracket that it never opened.
pub open spec fn dips(s: Seq<char>) -> bool {
    exists|k: int| 0 <= k <= s.len() && #[trigger] depth(s.take(k)) < 0
}

/// The brackets of `s` nest properly.
pub open spec fn balanced(s: Seq<char>) -> bool {
    !dips(s) && depth(s) == 0
}

proof fn lemma_dips_step(s: Seq<char>)
    requires
        s.len() > 0,
    ensures
        dips(s) <==> (dips(s.drop_last()) || depth(s) < 0),
        !dips(s.drop_last()) ==> depth(s.drop_last()) >= 0,
{
    let t = s.drop_last();
    assert(t.take(t.len() as int) == t);
    assert(s.take(s.len() as int) == s);
    if dips(t) {
        let k = choose|k: int| 0 <= k <= t.len() && #[trigger] depth(t.take(k)) < 0;
        assert(s.take(k) == t.take(k));
    }
    if dips(s) {
        let k = choose|k: int| 0 <= k <= s.len() && #[trigger] depth(s.take(k)) < 0;
        if k < s.len() {
            assert(s.take(k) == t.take(k));
        }
    }
}

/// The compiler meets a stray `]` exactly where a prefix dips below zero,
/// and otherwise holds one pending block for each open bracket.
proof fn lemma_scan_depth(s: Seq<char>)
    ensures
        scan(s).stray <==> dips(s),
        !scan(s).stray ==> scan(s).open.len() == depth(s),
    decreases s.len(),
{
    if s.len() == 0 {
        assert(s.take(0) == s);
    } else {
        lemma_scan_depth(s.drop_last());
        lemma_dips_step(s);
    }
}

/// Compilation succeeds exactly on properly nested brackets; a `]` with no
/// open `[` before it is reported as `]`, and otherwise an unclosed `[` as
/// `[`.
pub proof fn lemma_compile_brackets(s: Seq<char>)
    ensures
        compile(s) is Ok <==> balanced(s),
        compile(s) == Err::<Seq<BlockModel>, Error>(Error::SyntaxError(']')) <==> dips(s),
        compile(s) == Err::<Seq<BlockModel>, Error>(Error::SyntaxError('[')) <==> (!dips(s)
            && depth(s) > 0),
{
    lemma_scan_depth(s);
}

proof fn lemma_scan_no_commands(s: Seq<char>)
    requires
        forall|i: int| 0 <= i < s.len() ==> !is_command_char(#[trigger] s[i]),
    ensures
        scan(s) == scan(Seq::<char>::empty()),
    decreases s.len(),
{
    if s.len() > 0 {
        lemma_scan_no_commands(s.drop_last());
    }
}

/// Source without a single command compiles to one empty, terminal block:
/// running it halts at once, writes nothing and reads nothing.
pub proof fn lemma_no_commands_halt(s: Seq<char>, input: Seq<u8>, cfg: Config, fuel: nat)
    requires
        forall|i: int| 0 <= i < s.len() ==> !is_command_char(#[trigger] s[i]),
        cfg.tape_length > 0,
        fuel > 0,
    ensures
        run_spec(s, input, cfg, fuel) == ended(Ok(Status::Halted), input),
        run_spec(s, input, cfg, fuel).output.len() == 0,
        run_spec(s, input, cfg, fuel).unread == input,
{
    lemma_scan_no_commands(s);
    let p = compile(s)->Ok_0;
    assert(p == seq![BlockModel { instrs: Seq::empty(), jz: None, jnz: None }]);
    assert(step_spec(p, cfg, start(cfg)).0 == Action::Halt);
}

/// The cell after `k` increments.
pub open spec fn inc_n(b: u8, k: nat) -> u8
    decreases k,
{
    if k == 0 {
        b
    } else {
        inc(inc_n(b, (k - 1) as nat))
    }
}

proof fn lemma_inc_n_mod(b: u8, k: nat)
    ensures
        inc_n(b, k) == (b + k) % 256,
    decreases k,
{
    if k > 0 {
        lemma_inc_n_mod(b, (k - 1) as nat);
    }
}

/// `+` and `-` undo each other, and 256 increments bring a cell back to
/// where it was.
pub proof fn lemma_inc_dec_inverse(b: u8)
    ensures
        dec(inc(b)) == b,
        inc(dec(b)) == b,
        inc_n(b, 256) == b,
{
    lemma_inc_n_mod(b, 256);
}

/// At the ends of the tape a ring carries the cursor over to the other end,
/// while a bounded tape fails the step with `PointerOutOfBounds`.
pub proof fn lemma_tape_edges(p: Seq<BlockModel>, cfg: Config, s: State)
    requires
        cfg.tape_length > 0,
        0 <= s.block < p.len(),
        s.pc < p[s.block as int].instrs.len(),
        s.cursor < s.tape.len(),
    ensures
        p[s.block as int].instrs[s.pc as int] == Cmd::Right && s.cursor == cfg.tape_length - 1
            ==> step_spec(p, cfg, s) == if cfg.policy == TapePolicy::Wraparound {
            (Action::Continue, moved(s, 0))
        } else {
            (Action::Fail(Error::PointerOutOfBounds('>')), s)
        },
        p[s.block as int].instrs[s.pc as int] == Cmd::Left && s.cursor == 0 ==> step_spec(p, cfg, s)
            == if cfg.policy == TapePolicy::Wraparound {
            (Action::Continue, moved(s, (cfg.tape_length - 1) as nat))
        } else {
            (Action::Fail(Error::PointerOutOfBounds('<')), s)
        },
{
    assert(shift(cfg, (cfg.tape_length - 1) as nat, true) == if cfg.policy
        == TapePolicy::Wraparound {
        Some(0nat)
    } else {
        None
    });
}

/// A read at end of input leaves the tape and the cursor as they were and
/// moves on to the next instruction.
pub proof fn lemma_read_at_end(p: Seq<BlockModel>, cfg: Config, s: State, fuel: nat)
    requires
        fuel > 0,
        step_spec(p, cfg, s).0 == Action::Read,
    ensures
        feed_spec(s, None).tape == s.tape,
        feed_spec(s, None).cursor == s.cursor,
        feed_spec(s, None).pc == s.pc + 1,
        exec(p, cfg, s, Seq::empty(), fuel) == exec(
            p,
            cfg,
            feed_spec(s, None),
            Seq::empty(),
            (fuel - 1) as nat,
        ),
{
}

} // verus!
