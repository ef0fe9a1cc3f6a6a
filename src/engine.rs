use vstd::prelude::*;
use crate::cell::CellWidth;
use crate::instruction::{Instruction, targets_in_range, resolves, mutually_linked};
use crate::translate::{TranslateError, parse_brainfuck, balanced, translation_error};

verus! {

/// How an emitted cell value is written to the output channel.
#[derive(Clone, Copy, Debug, PartialEq, Eq, Structural)]
pub enum OutputMode {
    /// The value's low byte, as one character code.
    Character,
    /// The value in decimal digits, with no separator.
    Numeric,
}

/// Why a run stopped before the end of its program.
#[derive(Clone, Copy, Debug, PartialEq, Eq, Structural)]
pub enum EngineError {
    /// `MovePointerBackward` ran with the cursor at 0, at this instruction index.
    PointerUnderflow { pc: usize },
}

/// Where a run stands: the next instruction and the next unread input byte.
#[derive(Clone, Copy, Debug, PartialEq, Eq, Structural)]
pub struct Position {
    pub pc: usize,
    pub input_pos: usize,
}

/// How a bounded run ended without error.
#[derive(Clone, Copy, Debug, PartialEq, Eq, Structural)]
pub struct RunOutcome {
    /// The position after the last instruction executed.
    pub at: Position,
    /// True when the program counter reached the end of the program; false
    /// when the instruction budget ran out first.
    pub halted: bool,
}

/// The whole state of a run, as a mathematical value.
pub struct Config {
    pub tape: Seq<u64>,
    pub cursor: int,
    pub pc: int,
    pub input_pos: int,
    pub output: Seq<u64>,
}

/// The effect of executing the instruction at `c.pc`: `None` when it is a
/// backward move with the cursor at 0.
pub open spec fn step_spec(w: CellWidth, p: Seq<Instruction>, input: Seq<u8>, c: Config) -> Option<
    Config,
> {
    let cell = c.tape[c.cursor];
    let next = c.pc + 1;
    match p[c.pc] {
        Instruction::MovePointerForward => Some(
            Config {
                tape: if c.cursor + 1 >= c.tape.len() {
                    c.tape.push(0)
                } else {
                    c.tape
                },
                cursor: c.cursor + 1,
                pc: next,
                input_pos: c.input_pos,
                output: c.output,
            },
        ),
        Instruction::MovePointerBackward => if c.cursor == 0 {
            None
        } else {
            Some(
                Config {
                    tape: c.tape,
                    cursor: c.cursor - 1,
                    pc: next,
                    input_pos: c.input_pos,
                    output: c.output,
                },
            )
        },
        Instruction::IncrementCell => Some(
            Config {
                tape: c.tape.update(c.cursor, w.inc_spec(cell)),
                cursor: c.cursor,
                pc: next,
                input_pos: c.input_pos,
                output: c.output,
            },
        ),
        Instruction::DecrementCell => Some(
            Config {
                tape: c.tape.update(c.cursor, w.dec_spec(cell)),
                cursor: c.cursor,
                pc: next,
                input_pos: c.input_pos,
                output: c.output,
            },
        ),
        Instruction::OutputCell => Some(
            Config {
                tape: c.tape,
                cursor: c.cursor,
                pc: next,
                input_pos: c.input_pos,
                output: c.output.push(cell),
            },
        ),
        Instruction::InputCell => if 0 <= c.input_pos < input.len() {
            Some(
                Config {
                    tape: c.tape.update(c.cursor, input[c.input_pos] as u64),
                    cursor: c.cursor,
                    pc: next,
                    input_pos: c.input_pos + 1,
                    output: c.output,
                },
            )
        } else {
            Some(
                Config {
                    tape: c.tape,
                    cursor: c.cursor,
                    pc: next,
                    input_pos: c.input_pos,
                    output: c.output,
                },
            )
        },
        Instruction::LoopStart(end) => Some(
            Config {
                tape: c.tape,
                cursor: c.cursor,
                pc: if cell == 0 {
                    end + 1
                } else {
                    next
                },
                input_pos: c.input_pos,
                output: c.output,
            },
        ),
        Instruction::LoopEnd(start) => Some(
            Config {
                tape: c.tape,
                cursor: c.cursor,
                pc: if cell != 0 {
                    start + 1
                } else {
                    next
                },
                input_pos: c.input_pos,
                output: c.output,
            },
        ),
    }
}

/// Runs from `c` for at most `fuel` instructions, stopping early when the
/// program counter leaves the program. The flag is true when the run stopped
/// on an underflow; the configuration is then the one at the failing
/// instruction.
pub open spec fn run_spec(w: CellWidth, p: Seq<Instruction>, input: Seq<u8>, c: Config, fuel: nat) -> (
    Config,
    bool,
)
    decreases fuel,
{
    if fuel == 0 || !(0 <= c.pc < p.len()) {
        (c, false)
    } else {
        match step_spec(w, p, input, c) {
            None => (c, true),
            Some(d) => run_spec(w, p, input, d, (fuel - 1) as nat),
        }
    }
}

/// What a bounded run from `start` reports, given the engine state and
/// output it ends with (`end`, whose program position is not used) and its
/// result.
pub open spec fn run_reported(
    w: CellWidth,
    p: Seq<Instruction>,
    input: Seq<u8>,
    start: Config,
    fuel: nat,
    end: Config,
    r: Result<RunOutcome, EngineError>,
) -> bool {
    let (c, failed) = run_spec(w, p, input, start, fuel);
    &&& end.tape == c.tape
    &&& end.cursor == c.cursor
    &&& end.output == c.output
    &&& (r is Err <==> failed)
    &&& (r matches Err(EngineError::PointerUnderflow { pc }) ==> pc == c.pc)
    &&& (r matches Ok(o) ==> o.at.pc == c.pc && o.at.input_pos == c.input_pos && (o.halted
        <==> c.pc >= p.len()))
}

/// Why running a source text stopped early.
#[derive(Clone, Copy, Debug, PartialEq, Eq, Structural)]
pub enum RunError {
    Translate(TranslateError),
    Engine(EngineError),
}

/// The engine's part of a source run's result.
pub open spec fn engine_part(r: Result<RunOutcome, RunError>) -> Result<RunOutcome, EngineError> {
    match r {
        Ok(o) => Ok(o),
        Err(RunError::Engine(e)) => Err(e),
        Err(RunError::Translate(_)) => Err(EngineError::PointerUnderflow { pc: 0 }),
    }
}

/// The execution engine: a tape of cells, a cursor into it, and the
/// configuration of cell width and output rendering.
pub struct BrainfuckInterpreter {
    memory: Vec<u64>,
    pointer: usize,
    width: CellWidth,
    output_mode: OutputMode,
}

/// The decimal digits of `n`, most significant first, as ASCII bytes.
pub open spec fn decimal(n: nat) -> Seq<u8>
    decreases n,
{
    if n < 10 {
        seq![(48 + n) as u8]
    } else {
        decimal(n / 10).push((48 + n % 10) as u8)
    }
}

/// The bytes that a cell value is written as.
pub open spec fn rendering(mode: OutputMode, v: u64) -> Seq<u8> {
    match mode {
        OutputMode::Character => seq![(v % 256) as u8],
        OutputMode::Numeric => decimal(v as nat),
    }
}

/// Appends the decimal digits of `v` to `out`.
pub fn push_decimal(v: u64, out: &mut Vec<u8>)
    ensures
        final(out)@ == old(out)@ + decimal(v as nat),
    decreases v,
{
    if v >= 10 {
        push_decimal(v / 10, out);
    }
    out.push((48 + v % 10) as u8);
    proof {
        if v < 10 {
            assert(v % 10 == v);
        }
        assert(old(out)@ + decimal(v as nat) =~= final(out)@) by {
            if v >= 10 {
                assert(decimal(v as nat) == decimal((v / 10) as nat).push((48 + v % 10) as u8));
            }
        }
    }
}

/// Every cell of the tape fits the width.
pub open spec fn cells_fit(w: CellWidth, tape: Seq<u64>) -> bool {
    forall|k: int| 0 <= k < tape.len() ==> w.holds(#[trigger] tape[k])
}

/// The number of zero cells in the standard tape.
pub const STANDARD_TAPE_LEN: usize = 30000;

impl BrainfuckInterpreter {
    pub closed spec fn tape(&self) -> Seq<u64> {
        self.memory@
    }

    pub closed spec fn cursor(&self) -> int {
        self.pointer as int
    }

    pub closed spec fn width_spec(&self) -> CellWidth {
        self.width
    }

    pub closed spec fn mode_spec(&self) -> OutputMode {
        self.output_mode
    }

    /// The cursor indexes the tape and every cell fits the width.
    pub open spec fn wf(&self) -> bool {
        0 <= self.cursor() < self.tape().len() && cells_fit(self.width_spec(), self.tape())
    }

    /// The engine's state together with a program position and the output so far.
    pub open spec fn config(&self, pc: int, input_pos: int, output: Seq<u64>) -> Config {
        Config { tape: self.tape(), cursor: self.cursor(), pc, input_pos, output }
    }

    /// An engine over the given tape, with 64-bit cells and numeric output.
    /// An empty tape starts as one zero cell, so that the cursor is valid.
    pub fn new(initial_memory: Vec<u64>) -> (r: Self)
        ensures
            r.wf(),
            r.cursor() == 0,
            r.width_spec() == CellWidth::Bits64,
            r.mode_spec() == OutputMode::Numeric,
            r.tape() == if initial_memory@.len() == 0 {
                seq![0u64]
            } else {
                initial_memory@
            },
    {
        let mut memory = initial_memory;
        if memory.len() == 0 {
            memory.push(0);
        }
        proof {
            if initial_memory@.len() == 0 {
                assert(memory@ =~= seq![0u64]);
            }
        }
        BrainfuckInterpreter { memory, pointer: 0, width: CellWidth::Bits64, output_mode: OutputMode::Numeric }
    }

    /// An engine over the given tape with the given cell width and output
    /// rendering; `None` when some cell does not fit the width. An empty tape
    /// starts as one zero cell.
    pub fn with_config(initial_memory: Vec<u64>, width: CellWidth, output_mode: OutputMode) -> (r:
        Option<Self>)
        ensures
            r is Some <==> cells_fit(width, initial_memory@),
            r matches Some(e) ==> {
                &&& e.wf()
                &&& e.cursor() == 0
                &&& e.width_spec() == width
                &&& e.mode_spec() == output_mode
                &&& e.tape() == if initial_memory@.len() == 0 {
                    seq![0u64]
                } else {
                    initial_memory@
                }
            },
    {
        let max = width.max_value();
        let mut k: usize = 0;
        while k < initial_memory.len()
            invariant
                k <= initial_memory@.len(),
                max == width.max_spec(),
                forall|i: int| 0 <= i < k ==> width.holds(#[trigger] initial_memory@[i]),
            decreases initial_memory@.len() - k,
        {
            if initial_memory[k] > max {
                return None;
            }
            k = k + 1;
        }
        let mut memory = initial_memory;
        if memory.len() == 0 {
            memory.push(0);
        }
        proof {
            if initial_memory@.len() == 0 {
                assert(memory@ =~= seq![0u64]);
            }
        }
        Some(BrainfuckInterpreter { memory, pointer: 0, width, output_mode })
    }

    /// The canonical engine: a zero-filled tape of `STANDARD_TAPE_LEN` cells,
    /// 8-bit wrapping cells, and character output.
    pub fn standard() -> (r: Self)
        ensures
            r.wf(),
            r.cursor() == 0,
            r.width_spec() == CellWidth::Bits8,
            r.mode_spec() == OutputMode::Character,
            r.tape() == Seq::new(STANDARD_TAPE_LEN as nat, |k: int| 0u64),
    {
        let mut memory: Vec<u64> = Vec::new();
        let mut k: usize = 0;
        while k < STANDARD_TAPE_LEN
            invariant
                k <= STANDARD_TAPE_LEN,
                memory@ == Seq::new(k as nat, |i: int| 0u64),
            decreases STANDARD_TAPE_LEN - k,
        {
            memory.push(0);
            k = k + 1;
            assert(memory@ =~= Seq::new(k as nat, |i: int| 0u64));
        }
        BrainfuckInterpreter { memory, pointer: 0, width: CellWidth::Bits8, output_mode: OutputMode::Character }
    }

    /// The tape's cells.
    pub fn memory(&self) -> (r: &Vec<u64>)
        ensures
            r@ == self.tape(),
    {
        &self.memory
    }

    /// The cursor.
    pub fn pointer(&self) -> (r: usize)
        ensures
            r == self.cursor(),
    {
        self.pointer
    }

    /// The configured cell width.
    pub fn width(&self) -> (r: CellWidth)
        ensures
            r == self.width_spec(),
    {
        self.width
    }

    /// The configured output rendering.
    pub fn output_mode(&self) -> (r: OutputMode)
        ensures
            r == self.mode_spec(),
    {
        self.output_mode
    }

    /// Executes the instruction at `pc`, appending any emitted cell value to
    /// `output` and reading input from `input` at `input_pos`. Returns the
    /// next position, or `PointerUnderflow` with nothing changed.
    pub fn step(
        &mut self,
        program: &Vec<Instruction>,
        pc: usize,
        input: &Vec<u8>,
        input_pos: usize,
        output: &mut Vec<u64>,
    ) -> (r: Result<Position, EngineError>)
        requires
            old(self).wf(),
            targets_in_range(program@),
            pc < program@.len(),
        ensures
            final(self).wf(),
            final(self).width_spec() == old(self).width_spec(),
            final(self).mode_spec() == old(self).mode_spec(),
            r is Err <==> step_spec(
                old(self).width_spec(),
                program@,
                input@,
                old(self).config(pc as int, input_pos as int, old(output)@),
            ) is None,
            r matches Err(e) ==> e == (EngineError::PointerUnderflow { pc }) && *final(self) == *old(
                self,
            ) && final(output)@ == old(output)@,
            r matches Ok(q) ==> step_spec(
                old(self).width_spec(),
                program@,
                input@,
                old(self).config(pc as int, input_pos as int, old(output)@),
            ) == Some(final(self).config(q.pc as int, q.input_pos as int, final(output)@)),
            r matches Ok(q) ==> q.pc <= program@.len() && (input_pos <= input@.len()
                ==> q.input_pos <= input@.len()),
    {
        let n = program.len();
        let len = self.memory.len();
        let next = pc + 1;
        let ins = program[pc];
        assert(ins == program@[pc as int]);
        match ins {
            Instruction::MovePointerForward => {
                self.pointer = self.pointer + 1;
                if self.pointer >= self.memory.len() {
                    self.memory.push(0);
                }
                Ok(Position { pc: next, input_pos })
            },
            Instruction::MovePointerBackward => {
                if self.pointer == 0 {
                    return Err(EngineError::PointerUnderflow { pc });
                }
                self.pointer = self.pointer - 1;
                Ok(Position { pc: next, input_pos })
            },
            Instruction::IncrementCell => {
                let v = self.width.increment(self.memory[self.pointer]);
                self.memory.set(self.pointer, v);
                Ok(Position { pc: next, input_pos })
            },
            Instruction::DecrementCell => {
                let v = self.width.decrement(self.memory[self.pointer]);
                self.memory.set(self.pointer, v);
                Ok(Position { pc: next, input_pos })
            },
            Instruction::OutputCell => {
                output.push(self.memory[self.pointer]);
                Ok(Position { pc: next, input_pos })
            },
            Instruction::InputCell => {
                if input_pos < input.len() {
                    self.memory.set(self.pointer, input[input_pos] as u64);
                    Ok(Position { pc: next, input_pos: input_pos + 1 })
                } else {
                    Ok(Position { pc: next, input_pos })
                }
            },
            Instruction::LoopStart(end) => {
                if self.memory[self.pointer] == 0 {
                    Ok(Position { pc: end + 1, input_pos })
                } else {
                    Ok(Position { pc: next, input_pos })
                }
            },
            Instruction::LoopEnd(start) => {
                if self.memory[self.pointer] != 0 {
                    Ok(Position { pc: start + 1, input_pos })
                } else {
                    Ok(Position { pc: next, input_pos })
                }
            },
        }
    }
    /// Runs the program from its first instruction for at most `fuel`
    /// instructions, appending emitted cell values to `output`. Stops when
    /// the program counter reaches the end of the program, when the budget is
    /// spent, or on an underflow; output emitted before an underflow stays.
    pub fn run(&mut self, program: &Vec<Instruction>, input: &Vec<u8>, output: &mut Vec<u64>, fuel: u64) -> (r:
        Result<RunOutcome, EngineError>)
        requires
            old(self).wf(),
            targets_in_range(program@),
        ensures
            final(self).wf(),
            final(self).width_spec() == old(self).width_spec(),
            final(self).mode_spec() == old(self).mode_spec(),
            run_reported(
                old(self).width_spec(),
                program@,
                input@,
                old(self).config(0, 0, old(output)@),
                fuel as nat,
                final(self).config(0, 0, final(output)@),
                r,
            ),
    {
        let ghost w = self.width;
        let ghost target = run_spec(w, program@, input@, self.config(0, 0, output@), fuel as nat);
        let mut pc: usize = 0;
        let mut input_pos: usize = 0;
        let mut remaining: u64 = fuel;
        while remaining > 0 && pc < program.len()
            invariant
                self.wf(),
                self.width_spec() == w,
                self.mode_spec() == old(self).mode_spec(),
                w == old(self).width_spec(),
                targets_in_range(program@),
                pc <= program@.len(),
                input_pos <= input@.len(),
                target == run_spec(w, program@, input@, old(self).config(0, 0, old(output)@), fuel as nat),
                target == run_spec(
                    w,
                    program@,
                    input@,
                    self.config(pc as int, input_pos as int, output@),
                    remaining as nat,
                ),
            decreases remaining,
        {
            let ghost before = self.config(pc as int, input_pos as int, output@);
            match self.step(program, pc, input, input_pos, output) {
                Err(e) => {
                    assert(step_spec(w, program@, input@, before) is None);
                    assert(self.config(pc as int, input_pos as int, output@) == before);
                    return Err(e);
                },
                Ok(q) => {
                    pc = q.pc;
                    input_pos = q.input_pos;
                },
            }
            remaining = remaining - 1;
        }
        Ok(RunOutcome { at: Position { pc, input_pos }, halted: pc >= program.len() })
    }

    /// Translates `code` and, when it translates, runs the result as `run`
    /// does. A text that does not translate leaves the engine and the output
    /// as they were.
    pub fn run_source(&mut self, code: &str, input: &Vec<u8>, output: &mut Vec<u64>, fuel: u64) -> (r:
        Result<RunOutcome, RunError>)
        requires
            old(self).wf(),
        ensures
            final(self).wf(),
            final(self).width_spec() == old(self).width_spec(),
            final(self).mode_spec() == old(self).mode_spec(),
            r matches Err(RunError::Translate(_)) <==> !balanced(code@),
            r matches Err(RunError::Translate(e)) ==> translation_error(code@, e) && *final(self)
                == *old(self) && final(output)@ == old(output)@,
            balanced(code@) ==> exists|p: Seq<Instruction>|
                resolves(code@, p) && run_reported(
                    old(self).width_spec(),
                    p,
                    input@,
                    old(self).config(0, 0, old(output)@),
                    fuel as nat,
                    final(self).config(0, 0, final(output)@),
                    engine_part(r),
                ),
    {
        match parse_brainfuck(code) {
            Err(e) => Err(RunError::Translate(e)),
            Ok(program) => {
                proof {
                    assert(mutually_linked(program@));
                    assert forall|k: int| 0 <= k < program@.len() implies match #[trigger] program@[k] {
                        Instruction::LoopStart(j) => j < program@.len(),
                        Instruction::LoopEnd(j) => j < program@.len(),
                        _ => true,
                    } by {}
                }
                let r = self.run(&program, input, output, fuel);
                match r {
                    Ok(o) => Ok(o),
                    Err(e) => Err(RunError::Engine(e)),
                }
            },
        }
    }

    /// The bytes that one emitted cell value is written as, under the
    /// configured output rendering.
    pub fn render(&self, v: u64) -> (r: Vec<u8>)
        ensures
            r@ == rendering(self.mode_spec(), v),
    {
        let mut out: Vec<u8> = Vec::new();
        match self.output_mode {
            OutputMode::Character => {
                out.push((v % 256) as u8);
            },
            OutputMode::Numeric => {
                push_decimal(v, &mut out);
            },
        }
        out
    }
}

/// A backward move with the cursor at 0 never succeeds: the step fails, and
/// a run that reaches it stops there with the configuration unchanged and
/// the failure reported.
pub proof fn lemma_backward_at_origin_underflows(
    w: CellWidth,
    p: Seq<Instruction>,
    input: Seq<u8>,
    c: Config,
    fuel: nat,
)
    requires
        0 <= c.pc < p.len(),
        p[c.pc] == Instruction::MovePointerBackward,
        c.cursor == 0,
        fuel > 0,
    ensures
        step_spec(w, p, input, c) is None,
        run_spec(w, p, input, c, fuel) == (c, true),
{
}

/// A forward move from the last cell of the tape grows the tape by exactly
/// one zero cell and keeps every existing cell; the cursor lands on the new
/// cell.
pub proof fn lemma_forward_grows_by_one_zero(w: CellWidth, p: Seq<Instruction>, input: Seq<u8>, c: Config)
    requires
        0 <= c.pc < p.len(),
        p[c.pc] == Instruction::MovePointerForward,
        c.cursor == c.tape.len() - 1,
    ensures
        step_spec(w, p, input, c) matches Some(d) && {
            &&& d.tape.len() == c.tape.len() + 1
            &&& d.tape.subrange(0, c.tape.len() as int) == c.tape
            &&& d.tape[c.tape.len() as int] == 0
            &&& d.cursor == c.tape.len()
        },
{
    let d = step_spec(w, p, input, c)->Some_0;
    assert(d.tape.subrange(0, c.tape.len() as int) =~= c.tape);
}

/// A forward move inside the tape leaves the tape as it is.
pub proof fn lemma_forward_inside_keeps_tape(w: CellWidth, p: Seq<Instruction>, input: Seq<u8>, c: Config)
    requires
        0 <= c.pc < p.len(),
        p[c.pc] == Instruction::MovePointerForward,
        0 <= c.cursor < c.tape.len() - 1,
    ensures
        step_spec(w, p, input, c) matches Some(d) && d.tape == c.tape && d.cursor == c.cursor + 1,
{
}

/// A loop whose body only emits output, with a non-zero current cell, never
/// ends: from any point inside it, however many instructions run, the run
/// has not failed, is still inside the loop, and the tape and cursor are
/// unchanged.
pub proof fn lemma_output_only_loop_never_ends(
    w: CellWidth,
    p: Seq<Instruction>,
    input: Seq<u8>,
    c: Config,
    k: int,
    j: int,
    fuel: nat,
)
    requires
        0 <= k < j < p.len(),
        p[k] is LoopStart && p[k]->LoopStart_0 == j,
        p[j] is LoopEnd && p[j]->LoopEnd_0 == k,
        forall|i: int| k < i < j ==> #[trigger] p[i] == Instruction::OutputCell,
        k <= c.pc <= j,
        0 <= c.cursor < c.tape.len(),
        c.tape[c.cursor] != 0,
    ensures
        ({
            let (d, failed) = run_spec(w, p, input, c, fuel);
            &&& !failed
            &&& k <= d.pc <= j
            &&& d.tape == c.tape
            &&& d.cursor == c.cursor
        }),
    decreases fuel,
{
    if fuel > 0 {
        let d = step_spec(w, p, input, c)->Some_0;
        if k < c.pc < j {
            assert(p[c.pc] == Instruction::OutputCell);
        }
        lemma_output_only_loop_never_ends(w, p, input, d, k, j, (fuel - 1) as nat);
    }
}

/// An empty loop `[]` reached with a zero current cell is skipped: the next
/// instruction is the one after it, and nothing else changes.
pub proof fn lemma_empty_loop_skipped(w: CellWidth, p: Seq<Instruction>, input: Seq<u8>, c: Config)
    requires
        0 <= c.pc,
        c.pc + 1 < p.len(),
        p[c.pc] is LoopStart && p[c.pc]->LoopStart_0 == c.pc + 1,
        p[c.pc + 1] is LoopEnd && p[c.pc + 1]->LoopEnd_0 == c.pc,
        0 <= c.cursor < c.tape.len(),
        c.tape[c.cursor] == 0,
    ensures
        step_spec(w, p, input, c) == Some(
            Config {
                tape: c.tape,
                cursor: c.cursor,
                pc: c.pc + 2,
                input_pos: c.input_pos,
                output: c.output,
            },
        ),
{
}

} // verus!
