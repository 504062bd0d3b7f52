//! The executor: a tree-walking interpreter over a growable byte tape.
//!
//! Execution works on plain values. Character input is supplied up front
//! and character output is collected in an [`Io`] buffer; a caller at the
//! real terminal feeds that buffer from its streams. A Brainfuck loop
//! need not terminate, so every entry point takes a `fuel` bound on how
//! many times any one loop may repeat, and reports whether the program
//! ran to completion within that bound. The mathematical meaning of a
//! run is given by the spec functions [`step_instr`], [`step_loop`] and
//! [`step_seq`], and each entry point returns exactly what they say.

use vstd::prelude::*;

use crate::compat::byte_to_char;
use crate::compat::char_to_byte;
use crate::compat::from_char_8859;
use crate::compat::to_char_8859;
use crate::parser::clean;
use crate::parser::no_loop_end_seq;
use crate::parser::parse;
use crate::parser::unparse_seq;
use crate::Instruction;
use crate::State;

verus! {

/// Buffered character I/O for a run: the input characters (of which the
/// first `pos` are already consumed) and the output characters so far.
#[derive(Debug)]
pub struct Io {
    /// The characters available on the input stream.
    pub input: Vec<char>,
    /// How many input characters have been consumed.
    pub pos: usize,
    /// The characters written to the output stream.
    pub output: Vec<char>,
}

impl Io {
    /// The consumed prefix never passes the end of the input.
    pub open spec fn wf(self) -> bool {
        self.pos <= self.input@.len()
    }

    /// The input characters not yet consumed.
    pub open spec fn remaining(self) -> Seq<char> {
        self.input@.skip(self.pos as int)
    }

    /// A fresh buffer over the given input, with nothing consumed and
    /// nothing written yet.
    pub fn new(input: Vec<char>) -> (io: Io)
        ensures
            io.wf(),
            io.remaining() == input@,
            io.output@ == Seq::<char>::empty(),
    {
        let io = Io { input, pos: 0, output: Vec::new() };
        proof {
            assert(io.remaining() =~= io.input@);
        }
        io
    }
}

/// A mathematical snapshot of a run: the tape, the pointer, the output
/// flag, the input characters still to come, and the output characters
/// written so far.
#[verifier::ext_equal]
pub struct Config {
    /// The tape cells.
    pub mem: Seq<u8>,
    /// The index of the selected cell.
    pub pointer: int,
    /// Whether the process has outputted.
    pub outted: bool,
    /// The input characters not yet consumed.
    pub input: Seq<char>,
    /// The output characters written so far.
    pub output: Seq<char>,
}

impl Config {
    /// The pointer always selects an existing cell.
    pub open spec fn wf(self) -> bool {
        0 <= self.pointer < self.mem.len()
    }

    /// The value of the selected cell.
    pub open spec fn cell(self) -> u8 {
        self.mem[self.pointer]
    }
}

/// The snapshot that a state and an I/O buffer denote.
pub open spec fn cfg(s: State, io: Io) -> Config {
    Config {
        mem: s.mem@,
        pointer: s.pointer as int,
        outted: s.outted,
        input: io.remaining(),
        output: io.output@,
    }
}

/// One increment with 8-bit unsigned wraparound.
pub open spec fn inc_u8(x: u8) -> u8 {
    ((x as int + 1) % 256) as u8
}

/// One decrement with 8-bit unsigned wraparound.
pub open spec fn dec_u8(x: u8) -> u8 {
    ((x as int + 255) % 256) as u8
}

/// What executing one instruction does to a snapshot.
///
/// `fuel` bounds how many times any one loop may repeat; `None` means
/// the bound was exhausted. Everything else is total: wraparound, lazy
/// tape growth, the pointer stopping at zero, and end-of-input are all
/// absorbed, exactly as the executable instruction dispatch does.
pub open spec fn step_instr(m: Config, i: Instruction, fuel: nat) -> Option<Config>
    decreases fuel, i,
{
    match i {
        Instruction::Increment => Some(
            Config { mem: m.mem.update(m.pointer, inc_u8(m.cell())), ..m },
        ),
        Instruction::Decrement => Some(
            Config { mem: m.mem.update(m.pointer, dec_u8(m.cell())), ..m },
        ),
        Instruction::Forward => {
            if m.pointer + 1 == m.mem.len() {
                Some(Config { mem: m.mem.push(0), pointer: m.pointer + 1, ..m })
            } else {
                Some(Config { pointer: m.pointer + 1, ..m })
            }
        },
        Instruction::Backward => {
            if m.pointer == 0 {
                Some(m)
            } else {
                Some(Config { pointer: m.pointer - 1, ..m })
            }
        },
        Instruction::Loop(body) => step_loop(m, body, fuel),
        Instruction::LoopEnd => Some(m),
        Instruction::Out => Some(
            Config { outted: true, output: m.output.push(byte_to_char(m.cell())), ..m },
        ),
        Instruction::In => {
            if m.input.len() == 0 {
                Some(m)
            } else {
                Some(
                    Config {
                        mem: m.mem.update(m.pointer, char_to_byte(m.input[0])),
                        input: m.input.subrange(1, m.input.len() as int),
                        outted: true,
                        ..m
                    },
                )
            }
        },
    }
}

/// What executing a loop does: run the body once, and repeat for as long
/// as the selected cell is non-zero after a full pass (do-while
/// semantics). Each repeat beyond the first costs one unit of fuel.
pub open spec fn step_loop(m: Config, body: Vec<Instruction>, fuel: nat) -> Option<Config>
    decreases fuel, body,
{
    match step_seq(m, body@, fuel) {
        None => None,
        Some(m1) => {
            if m1.cell() == 0 {
                Some(m1)
            } else if fuel == 0 {
                None
            } else {
                step_loop(m1, body, (fuel - 1) as nat)
            }
        },
    }
}

/// What executing a sequence of instructions in order does.
pub open spec fn step_seq(m: Config, instrs: Seq<Instruction>, fuel: nat) -> Option<Config>
    decreases fuel, instrs,
{
    if instrs.len() == 0 {
        Some(m)
    } else {
        match step_instr(m, instrs[0], fuel) {
            None => None,
            Some(m1) => step_seq(m1, instrs.subrange(1, instrs.len() as int), fuel),
        }
    }
}

impl State {
    /// Executes one instruction (leaf or loop) against the state,
    /// consuming input from and appending output to `io`.
    ///
    /// Returns whether execution completed: `false` only when some loop
    /// repeated more than `fuel` times. The outcome is exactly what
    /// [`step_instr`] says of the starting snapshot.
    #[verifier::loop_isolation(false)]
    pub fn run(&mut self, instruction: &Instruction, io: &mut Io, fuel: u64) -> (done: bool)
        requires
            old(self).wf(),
            old(io).wf(),
        ensures
            final(self).wf(),
            final(io).wf(),
            final(io).input@ == old(io).input@,
            done ==> step_instr(cfg(*old(self), *old(io)), *instruction, fuel as nat)
                == Some(cfg(*final(self), *final(io))),
            !done ==> step_instr(cfg(*old(self), *old(io)), *instruction, fuel as nat) is None,
        decreases *instruction,
    {
        let ghost orig = cfg(*old(self), *old(io));
        match instruction {
            Instruction::Increment => {
                let x = self.mem[self.pointer];
                let y = if x == 255 { 0 } else { x + 1 };
                self.mem[self.pointer] = y;
                proof {
                    assert(cfg(*self, *io) =~= (Config {
                        mem: orig.mem.update(orig.pointer, inc_u8(orig.cell())),
                        ..orig
                    }));
                }
                true
            },
            Instruction::Decrement => {
                let x = self.mem[self.pointer];
                let y = if x == 0 { 255 } else { x - 1 };
                self.mem[self.pointer] = y;
                proof {
                    assert(cfg(*self, *io) =~= (Config {
                        mem: orig.mem.update(orig.pointer, dec_u8(orig.cell())),
                        ..orig
                    }));
                }
                true
            },
            Instruction::Forward => {
                let n = self.mem.len();
                if self.pointer == n - 1 {
                    self.mem.push(0);
                    proof {
                        assert(cfg(*self, *io).mem =~= orig.mem.push(0));
                    }
                }
                self.pointer = self.pointer + 1;
                proof {
                    assert(step_instr(orig, *instruction, fuel as nat)
                        == Some(cfg(*self, *io))) by {
                        if orig.pointer + 1 == orig.mem.len() {
                            assert(cfg(*self, *io) =~= (Config {
                                mem: orig.mem.push(0),
                                pointer: orig.pointer + 1,
                                ..orig
                            }));
                        } else {
                            assert(cfg(*self, *io) =~= (Config {
                                pointer: orig.pointer + 1,
                                ..orig
                            }));
                        }
                    }
                }
                true
            },
            Instruction::Backward => {
                if self.pointer != 0 {
                    self.pointer = self.pointer - 1;
                    proof {
                        assert(cfg(*self, *io) =~= (Config { pointer: orig.pointer - 1, ..orig }));
                    }
                } else {
                    proof {
                        assert(cfg(*self, *io) =~= orig);
                    }
                }
                true
            },
            Instruction::Loop(inners) => {
                let mut fuel_left: u64 = fuel;
                loop
                    invariant
                        self.wf(),
                        io.wf(),
                        io.input@ == old(io).input@,
                        step_loop(orig, *inners, fuel as nat)
                            == step_loop(cfg(*self, *io), *inners, fuel_left as nat),
                    decreases fuel_left,
                {
                    let ghost before = cfg(*self, *io);
                    let body_done = execute(self, inners, io, fuel_left);
                    if !body_done {
                        proof {
                            assert(step_loop(before, *inners, fuel_left as nat) is None);
                        }
                        return false;
                    }
                    proof {
                        assert(step_seq(before, inners@, fuel_left as nat)
                            == Some(cfg(*self, *io)));
                    }
                    if self.mem[self.pointer] == 0 {
                        proof {
                            assert(step_loop(before, *inners, fuel_left as nat)
                                == Some(cfg(*self, *io)));
                        }
                        return true;
                    }
                    if fuel_left == 0 {
                        proof {
                            assert(step_loop(before, *inners, fuel_left as nat) is None);
                        }
                        return false;
                    }
                    fuel_left = fuel_left - 1;
                }
            },
            Instruction::LoopEnd => {
                proof {
                    assert(cfg(*self, *io) =~= orig);
                }
                true
            },
            Instruction::Out => {
                self.outted = true;
                let c = to_char_8859(self.mem[self.pointer]);
                io.output.push(c);
                proof {
                    assert(cfg(*self, *io) =~= (Config {
                        outted: true,
                        output: orig.output.push(byte_to_char(orig.cell())),
                        ..orig
                    }));
                }
                true
            },
            Instruction::In => {
                if io.pos < io.input.len() {
                    let c = io.input[io.pos];
                    io.pos = io.pos + 1;
                    let b = from_char_8859(c);
                    self.mem[self.pointer] = b;
                    self.outted = true;
                    proof {
                        assert(c == orig.input[0]);
                        assert(cfg(*self, *io).input =~= orig.input.subrange(
                            1,
                            orig.input.len() as int,
                        ));
                        assert(cfg(*self, *io) =~= (Config {
                            mem: orig.mem.update(orig.pointer, char_to_byte(orig.input[0])),
                            input: orig.input.subrange(1, orig.input.len() as int),
                            outted: true,
                            ..orig
                        }));
                    }
                } else {
                    proof {
                        assert(cfg(*self, *io) =~= orig);
                    }
                }
                true
            },
        }
    }
}

/// Executes a sequence of instructions in order against an existing
/// state, for incremental evaluation.
///
/// Returns whether execution completed within the loop-repeat bound
/// `fuel`; the outcome is exactly what [`step_seq`] says of the starting
/// snapshot.
#[verifier::loop_isolation(false)]
pub fn execute(state: &mut State, instructions: &Vec<Instruction>, io: &mut Io, fuel: u64) -> (done:
    bool)
    requires
        old(state).wf(),
        old(io).wf(),
    ensures
        final(state).wf(),
        final(io).wf(),
        final(io).input@ == old(io).input@,
        done ==> step_seq(cfg(*old(state), *old(io)), instructions@, fuel as nat)
            == Some(cfg(*final(state), *final(io))),
        !done ==> step_seq(cfg(*old(state), *old(io)), instructions@, fuel as nat) is None,
    decreases *instructions,
{
    let ghost orig = cfg(*old(state), *old(io));
    let n = instructions.len();
    let mut j: usize = 0;
    proof {
        assert(instructions@.skip(0) =~= instructions@);
    }
    while j < n
        invariant
            state.wf(),
            io.wf(),
            io.input@ == old(io).input@,
            j <= n,
            n == instructions@.len(),
            step_seq(orig, instructions@, fuel as nat) == step_seq(
                cfg(*state, *io),
                instructions@.skip(j as int),
                fuel as nat,
            ),
        decreases n - j,
    {
        let ghost before = cfg(*state, *io);
        let ghost rest = instructions@.skip(j as int);
        proof {
            assert(rest[0] == instructions@[j as int]);
        }
        let done1 = state.run(&instructions[j], io, fuel);
        if !done1 {
            proof {
                assert(step_seq(before, rest, fuel as nat) is None);
            }
            return false;
        }
        proof {
            assert(rest.subrange(1, rest.len() as int) =~= instructions@.skip(j as int + 1));
            assert(step_seq(before, rest, fuel as nat) == step_seq(
                cfg(*state, *io),
                instructions@.skip(j as int + 1),
                fuel as nat,
            ));
        }
        j = j + 1;
    }
    proof {
        assert(instructions@.skip(n as int) =~= Seq::<Instruction>::empty());
    }
    true
}

/// The tree that parsing `src` produces, as the parser's contract pins
/// it down: no `LoopEnd` sentinel, and a canonical text equal to the
/// cleaned source. No two such trees share a canonical text.
pub open spec fn is_parse_of(src: Seq<char>, prog: Seq<Instruction>) -> bool {
    no_loop_end_seq(prog) && unparse_seq(prog) == clean(src, 0, 0)
}

/// Parses source text and executes it against an existing state, for
/// incremental evaluation: a later line picks up the tape where an
/// earlier one left it.
///
/// Returns whether execution completed within the loop-repeat bound
/// `fuel`.
pub fn run_from_state(src: &str, state: &mut State, io: &mut Io, fuel: u64) -> (done: bool)
    requires
        old(state).wf(),
        old(io).wf(),
    ensures
        final(state).wf(),
        final(io).wf(),
        final(io).input@ == old(io).input@,
        exists|prog: Seq<Instruction>|
            {
                &&& #[trigger] is_parse_of(src@, prog)
                &&& if done {
                    step_seq(cfg(*old(state), *old(io)), prog, fuel as nat) == Some(
                        cfg(*final(state), *final(io)),
                    )
                } else {
                    step_seq(cfg(*old(state), *old(io)), prog, fuel as nat) is None
                }
            },
{
    let prog = parse(src);
    let done = execute(state, &prog, io, fuel);
    proof {
        assert(is_parse_of(src@, prog@));
    }
    done
}

/// The snapshot that a fresh state denotes against an I/O buffer: a
/// single zeroed cell, the pointer on it, no output seen yet.
pub open spec fn start_cfg(io: Io) -> Config {
    Config {
        mem: seq![0u8],
        pointer: 0,
        outted: false,
        input: io.remaining(),
        output: io.output@,
    }
}

/// Parses and runs source text against a fresh state — the
/// parse-then-execute convenience — and returns the final state along
/// with whether execution completed within the loop-repeat bound
/// `fuel`.
pub fn run(src: &str, io: &mut Io, fuel: u64) -> (r: (State, bool))
    requires
        old(io).wf(),
    ensures
        r.0.wf(),
        final(io).wf(),
        final(io).input@ == old(io).input@,
        exists|prog: Seq<Instruction>|
            {
                &&& #[trigger] is_parse_of(src@, prog)
                &&& if r.1 {
                    step_seq(start_cfg(*old(io)), prog, fuel as nat) == Some(
                        cfg(r.0, *final(io)),
                    )
                } else {
                    step_seq(start_cfg(*old(io)), prog, fuel as nat) is None
                }
            },
{
    let mut state = State::new();
    proof {
        assert(cfg(state, *io) =~= start_cfg(*io));
    }
    let done = run_from_state(src, &mut state, io, fuel);
    (state, done)
}

/// Law: every instruction other than a loop executes without error,
/// whatever the fuel, and leaves the pointer within the tape's bounds.
pub proof fn lemma_leaf_step_total(m: Config, i: Instruction, fuel: nat)
    requires
        m.wf(),
        !(i is Loop),
    ensures
        step_instr(m, i, fuel) matches Some(m2) && m2.wf(),
{
}

/// Law: whenever an instruction completes, the pointer again selects an
/// existing cell, and the tape has not shrunk.
pub proof fn lemma_step_instr_wf(m: Config, i: Instruction, fuel: nat)
    requires
        m.wf(),
    ensures
        step_instr(m, i, fuel) matches Some(m2) ==> m2.wf() && m2.mem.len() >= m.mem.len(),
    decreases fuel, i,
{
    match i {
        Instruction::Loop(body) => lemma_step_loop_wf(m, body, fuel),
        _ => {},
    }
}

/// Law: whenever a loop completes, the pointer again selects an
/// existing cell, and the tape has not shrunk.
pub proof fn lemma_step_loop_wf(m: Config, body: Vec<Instruction>, fuel: nat)
    requires
        m.wf(),
    ensures
        step_loop(m, body, fuel) matches Some(m2) ==> m2.wf() && m2.mem.len() >= m.mem.len(),
    decreases fuel, body,
{
    lemma_step_seq_wf(m, body@, fuel);
    match step_seq(m, body@, fuel) {
        Some(m1) => {
            if m1.cell() != 0 && fuel > 0 {
                lemma_step_loop_wf(m1, body, (fuel - 1) as nat);
            }
        },
        None => {},
    }
}

/// Law: whenever a sequence of instructions completes, the pointer
/// again selects an existing cell, and the tape has not shrunk.
pub proof fn lemma_step_seq_wf(m: Config, instrs: Seq<Instruction>, fuel: nat)
    requires
        m.wf(),
    ensures
        step_seq(m, instrs, fuel) matches Some(m2) ==> m2.wf() && m2.mem.len() >= m.mem.len(),
    decreases fuel, instrs,
{
    if instrs.len() > 0 {
        lemma_step_instr_wf(m, instrs[0], fuel);
        match step_instr(m, instrs[0], fuel) {
            Some(m1) => lemma_step_seq_wf(m1, instrs.subrange(1, instrs.len() as int), fuel),
            None => {},
        }
    }
}

/// Law: increment then decrement returns the state to exactly where it
/// was — the 8-bit wraparound is self-inverse.
pub proof fn lemma_increment_decrement_round_trip(m: Config, fuel: nat)
    requires
        m.wf(),
    ensures
        step_seq(m, seq![Instruction::Increment, Instruction::Decrement], fuel) == Some(m),
{
    let s = seq![Instruction::Increment, Instruction::Decrement];
    let x = m.cell();
    let m1 = Config { mem: m.mem.update(m.pointer, inc_u8(x)), ..m };
    assert(step_instr(m, s[0], fuel) == Some(m1));
    assert(dec_u8(inc_u8(x)) == x);
    let m2 = Config { mem: m1.mem.update(m.pointer, x), ..m1 };
    assert(step_instr(m1, s[1], fuel) == Some(m2));
    assert(m2 =~= m);
    assert(s.subrange(1, 2)[0] == s[1]);
    assert(s.subrange(1, 2).subrange(1, 1) =~= Seq::<Instruction>::empty());
    assert(step_seq(m2, s.subrange(1, 2).subrange(1, 1), fuel) == Some(m2));
    assert(step_seq(m1, s.subrange(1, 2), fuel) == Some(m2));
    assert(step_seq(m, s, fuel) == Some(m2));
}

/// Law: moving forward past the tape's current end grows the tape by
/// exactly one cell, and never grows it otherwise; the pointer always
/// advances by one.
pub proof fn lemma_forward_growth(m: Config, fuel: nat)
    requires
        m.wf(),
    ensures
        step_instr(m, Instruction::Forward, fuel) matches Some(m2) && m2.pointer == m.pointer + 1
            && m2.mem.len() == if m.pointer + 1 == m.mem.len() {
            m.mem.len() + 1
        } else {
            m.mem.len()
        },
{
}

/// Law: moving backward with the pointer already at zero changes
/// nothing: the pointer never underflows and the tape keeps its length.
pub proof fn lemma_backward_at_zero(m: Config, fuel: nat)
    requires
        m.wf(),
        m.pointer == 0,
    ensures
        step_instr(m, Instruction::Backward, fuel) == Some(m),
{
}

} // verus!
