//! The tape virtual machine.

use vstd::prelude::*;
use crate::instructions::Instruction;
use crate::instructions::target_ok_at;
use crate::instructions::targets_ok;

verus! {

/// Number of cells on the tape.
pub const TAPE_LEN: usize = 30000;

/// The mathematical state of the virtual machine.
pub ghost struct VmState {
    pub instructions: Seq<Instruction>,
    pub tape: Seq<u8>,
    pub register: u8,
    pub ins_ptr: int,
    pub data_ptr: int,
    /// Bytes supplied by the input collaborator and not yet consumed.
    pub input: Seq<u8>,
    /// Bytes written to the output collaborator so far.
    pub output: Seq<u8>,
    /// Whether an input instruction found the input exhausted.
    pub failed: bool,
}

/// Well-formedness of a machine state.
pub open spec fn vm_inv(m: VmState) -> bool {
    &&& m.tape.len() == TAPE_LEN
    &&& 0 <= m.data_ptr < TAPE_LEN as int
    &&& 0 <= m.ins_ptr <= m.instructions.len()
    &&& targets_ok(m.instructions)
}

/// Whether a step can still execute an instruction.
pub open spec fn can_step(m: VmState) -> bool {
    &&& !m.failed
    &&& m.ins_ptr < m.instructions.len()
}

/// The state of a freshly constructed machine: tape and register zeroed,
/// both pointers at zero, no input pending and no output produced.
pub open spec fn initial_state(ins: Seq<Instruction>) -> VmState {
    VmState {
        instructions: ins,
        tape: Seq::new(TAPE_LEN as nat, |i: int| 0u8),
        register: 0u8,
        ins_ptr: 0,
        data_ptr: 0,
        input: Seq::empty(),
        output: Seq::empty(),
        failed: false,
    }
}

/// Incrementing a cell value wraps modulo 256.
pub open spec fn inc_wrap(v: u8) -> u8 {
    (((v as int) + 1) % 256) as u8
}

/// Decrementing a cell value wraps modulo 256.
pub open spec fn dec_wrap(v: u8) -> u8 {
    (((v as int) + 255) % 256) as u8
}

/// The effect of executing exactly one instruction on a state satisfying
/// [`can_step`]: the instruction's effect followed by the advance of the
/// instruction pointer by one.
pub open spec fn step_model(m: VmState) -> VmState {
    let v = m.tape[m.data_ptr];
    match m.instructions[m.ins_ptr] {
        Instruction::IncPtr => (VmState {
            data_ptr: (m.data_ptr + 1) % (TAPE_LEN as int),
            ins_ptr: m.ins_ptr + 1,
            ..m
        }),
        Instruction::DecPtr => (VmState {
            data_ptr: (m.data_ptr - 1 + TAPE_LEN as int) % (TAPE_LEN as int),
            ins_ptr: m.ins_ptr + 1,
            ..m
        }),
        Instruction::IncVal => (VmState {
            tape: m.tape.update(m.data_ptr, inc_wrap(v)),
            ins_ptr: m.ins_ptr + 1,
            ..m
        }),
        Instruction::DecVal => (VmState {
            tape: m.tape.update(m.data_ptr, dec_wrap(v)),
            ins_ptr: m.ins_ptr + 1,
            ..m
        }),
        Instruction::Output => (VmState {
            output: m.output.push(v),
            ins_ptr: m.ins_ptr + 1,
            ..m
        }),
        Instruction::Input => if m.input.len() == 0 {
            VmState { failed: true, ..m }
        } else {
            VmState {
                tape: m.tape.update(m.data_ptr, m.input[0]),
                input: m.input.skip(1),
                ins_ptr: m.ins_ptr + 1,
                ..m
            }
        },
        Instruction::JmpFwd(t) => (VmState {
            ins_ptr: if v == 0 { t as int + 1 } else { m.ins_ptr + 1 },
            ..m
        }),
        Instruction::JmpBk(t) => (VmState {
            ins_ptr: if v != 0 { t as int + 1 } else { m.ins_ptr + 1 },
            ..m
        }),
        Instruction::Stop => (VmState { ins_ptr: m.instructions.len() as int, ..m }),
        Instruction::Store => (VmState { register: v, ins_ptr: m.ins_ptr + 1, ..m }),
        Instruction::Retr => (VmState {
            tape: m.tape.update(m.data_ptr, m.register),
            ins_ptr: m.ins_ptr + 1,
            ..m
        }),
        Instruction::Rshift => (VmState {
            tape: m.tape.update(m.data_ptr, v >> 1u8),
            ins_ptr: m.ins_ptr + 1,
            ..m
        }),
        Instruction::Lshift => (VmState {
            tape: m.tape.update(m.data_ptr, v << 1u8),
            ins_ptr: m.ins_ptr + 1,
            ..m
        }),
        Instruction::Not => (VmState {
            tape: m.tape.update(m.data_ptr, !v),
            ins_ptr: m.ins_ptr + 1,
            ..m
        }),
        Instruction::Xor => (VmState {
            tape: m.tape.update(m.data_ptr, v ^ m.register),
            ins_ptr: m.ins_ptr + 1,
            ..m
        }),
        Instruction::And => (VmState {
            tape: m.tape.update(m.data_ptr, v & m.register),
            ins_ptr: m.ins_ptr + 1,
            ..m
        }),
        Instruction::Or => (VmState {
            tape: m.tape.update(m.data_ptr, v | m.register),
            ins_ptr: m.ins_ptr + 1,
            ..m
        }),
    }
}

/// The state reached from `m` after at most `n` steps: stepping stops as
/// soon as the machine is done or has failed.
pub open spec fn iterate(m: VmState, n: nat) -> VmState
    decreases n,
{
    if n == 0 {
        m
    } else {
        let prev = iterate(m, (n - 1) as nat);
        if can_step(prev) {
            step_model(prev)
        } else {
            prev
        }
    }
}

/// Whether the machine has terminated: the instruction pointer has reached
/// the end of the sequence.
pub open spec fn done(m: VmState) -> bool {
    m.ins_ptr >= m.instructions.len()
}

/// Once the machine cannot step, further iteration leaves it unchanged.
proof fn lemma_iterate_stall(m: VmState, i: nat, n: nat)
    requires
        i <= n,
        !can_step(iterate(m, i)),
    ensures
        iterate(m, n) == iterate(m, i),
    decreases n,
{
    if n > i {
        lemma_iterate_stall(m, i, (n - 1) as nat);
    }
}

/// Law: stepping past a forward jump whose current cell is zero lands the
/// instruction pointer exactly one past the recorded target, that is, just
/// after the matching backward jump; a backward jump on a nonzero cell
/// lands one past its recorded target likewise.
pub proof fn lemma_jump_lands_at_target(m: VmState)
    requires
        can_step(m),
    ensures
        m.instructions[m.ins_ptr] matches Instruction::JmpFwd(t) ==> (m.tape[m.data_ptr] == 0
            ==> step_model(m).ins_ptr == t + 1),
        m.instructions[m.ins_ptr] matches Instruction::JmpBk(t) ==> (m.tape[m.data_ptr] != 0
            ==> step_model(m).ins_ptr == t + 1),
{
}

/// Law: applying the bitwise-complement instruction twice in a row leaves
/// the tape, and with it the current cell, exactly as it was.
pub proof fn lemma_not_twice_restores(m: VmState)
    requires
        vm_inv(m),
        can_step(m),
        m.instructions[m.ins_ptr] == Instruction::Not,
        m.ins_ptr + 1 < m.instructions.len(),
        m.instructions[m.ins_ptr + 1] == Instruction::Not,
    ensures
        can_step(step_model(m)),
        step_model(step_model(m)).tape == m.tape,
        step_model(step_model(m)).data_ptr == m.data_ptr,
        step_model(step_model(m)).register == m.register,
{
    let v = m.tape[m.data_ptr];
    assert(!(!v) == v) by (bit_vector);
    assert(step_model(step_model(m)).tape =~= m.tape);
}

/// Law: a store followed, after any interval that leaves the register
/// untouched, by a recall restores the stored cell value, whatever happened
/// to the cell in between. `m1` is the state about to execute the store;
/// `m2` is any later well-formed state about to execute the recall whose
/// register still holds what the store put there.
pub proof fn lemma_register_round_trip(m1: VmState, m2: VmState)
    requires
        vm_inv(m1),
        can_step(m1),
        m1.instructions[m1.ins_ptr] == Instruction::Store,
        vm_inv(m2),
        can_step(m2),
        m2.instructions[m2.ins_ptr] == Instruction::Retr,
        m2.register == step_model(m1).register,
    ensures
        step_model(m2).tape[m2.data_ptr] == m1.tape[m1.data_ptr],
{
}

/// The character for one decimal digit.
pub open spec fn digit_char(d: int) -> char {
    if d == 0 {
        '0'
    } else if d == 1 {
        '1'
    } else if d == 2 {
        '2'
    } else if d == 3 {
        '3'
    } else if d == 4 {
        '4'
    } else if d == 5 {
        '5'
    } else if d == 6 {
        '6'
    } else if d == 7 {
        '7'
    } else if d == 8 {
        '8'
    } else {
        '9'
    }
}

/// The decimal rendering of a number, most significant digit first.
pub open spec fn dec_rep(n: nat) -> Seq<char>
    decreases n,
{
    if n < 10 {
        seq![digit_char(n as int)]
    } else {
        dec_rep(n / 10) + seq![digit_char((n % 10) as int)]
    }
}

/// One cell value as three right-aligned characters.
pub open spec fn render_cell(v: u8) -> Seq<char> {
    let x = v as int;
    if x >= 100 {
        seq![digit_char(x / 100), digit_char((x / 10) % 10), digit_char(x % 10)]
    } else if x >= 10 {
        seq![' ', digit_char(x / 10), digit_char(x % 10)]
    } else {
        seq![' ', ' ', digit_char(x)]
    }
}

/// What precedes the cell at index `i` in the dump: a row break every 150
/// cells, a separator otherwise.
pub open spec fn cell_sep(i: int) -> Seq<char> {
    if i % 150 == 0 {
        seq!['\n']
    } else {
        seq![',', ' ']
    }
}

/// The rendering of the first `count` cells of the tape.
pub open spec fn render_cells(tape: Seq<u8>, count: int) -> Seq<char>
    decreases count,
{
    if count <= 0 {
        Seq::empty()
    } else {
        render_cells(tape, count - 1) + cell_sep(count - 1) + render_cell(tape[count - 1])
    }
}

/// The full dump of a machine state: pointer, storage register, and the
/// tape as rows of 150 right-aligned three-digit values.
pub open spec fn render_vm(m: VmState) -> Seq<char> {
    "Pointer: "@ + dec_rep(m.data_ptr as nat) + "\nStorage: "@ + dec_rep(m.register as nat)
        + "\nData:"@ + render_cells(m.tape, m.tape.len() as int) + "\n"@
}

/// Appends one decimal digit character.
fn push_digit(s: &mut String, d: u8)
    requires
        d < 10,
    ensures
        final(s)@ == old(s)@ + seq![digit_char(d as int)],
{
    if d == 0 {
        s.append("0");
        proof {
            reveal_strlit("0");
            assert(s@ =~= old(s)@ + seq![digit_char(d as int)]);
        }
    } else if d == 1 {
        s.append("1");
        proof {
            reveal_strlit("1");
            assert(s@ =~= old(s)@ + seq![digit_char(d as int)]);
        }
    } else if d == 2 {
        s.append("2");
        proof {
            reveal_strlit("2");
            assert(s@ =~= old(s)@ + seq![digit_char(d as int)]);
        }
    } else if d == 3 {
        s.append("3");
        proof {
            reveal_strlit("3");
            assert(s@ =~= old(s)@ + seq![digit_char(d as int)]);
        }
    } else if d == 4 {
        s.append("4");
        proof {
            reveal_strlit("4");
            assert(s@ =~= old(s)@ + seq![digit_char(d as int)]);
        }
    } else if d == 5 {
        s.append("5");
        proof {
            reveal_strlit("5");
            assert(s@ =~= old(s)@ + seq![digit_char(d as int)]);
        }
    } else if d == 6 {
        s.append("6");
        proof {
            reveal_strlit("6");
            assert(s@ =~= old(s)@ + seq![digit_char(d as int)]);
        }
    } else if d == 7 {
        s.append("7");
        proof {
            reveal_strlit("7");
            assert(s@ =~= old(s)@ + seq![digit_char(d as int)]);
        }
    } else if d == 8 {
        s.append("8");
        proof {
            reveal_strlit("8");
            assert(s@ =~= old(s)@ + seq![digit_char(d as int)]);
        }
    } else {
        s.append("9");
        proof {
            reveal_strlit("9");
            assert(s@ =~= old(s)@ + seq![digit_char(d as int)]);
        }
    }
}

/// Appends the decimal rendering of a number.
fn push_dec(s: &mut String, n: u64)
    ensures
        final(s)@ == old(s)@ + dec_rep(n as nat),
    decreases n,
{
    if n < 10 {
        push_digit(s, n as u8);
    } else {
        push_dec(s, n / 10);
        push_digit(s, (n % 10) as u8);
        proof {
            assert(s@ =~= old(s)@ + dec_rep(n as nat));
        }
    }
}

/// Appends one cell value as three right-aligned characters.
fn push_cell(s: &mut String, v: u8)
    ensures
        final(s)@ == old(s)@ + render_cell(v),
{
    if v >= 100 {
        push_digit(s, v / 100);
        push_digit(s, (v / 10) % 10);
        push_digit(s, v % 10);
        proof {
            assert(s@ =~= old(s)@ + render_cell(v));
        }
    } else if v >= 10 {
        s.append(" ");
        push_digit(s, v / 10);
        push_digit(s, v % 10);
        proof {
            reveal_strlit(" ");
            assert(s@ =~= old(s)@ + render_cell(v));
        }
    } else {
        s.append(" ");
        s.append(" ");
        push_digit(s, v);
        proof {
            reveal_strlit(" ");
            assert(s@ =~= old(s)@ + render_cell(v));
        }
    }
}

/// The error surfaced when an input instruction cannot obtain a byte.
/// The output collaborator is an in-memory buffer and cannot fail.
#[derive(Debug, Clone, Copy, PartialEq, Eq)]
pub enum IoError {
    InputExhausted,
}

/// A program of the virtual machine: a fixed instruction sequence, the
/// 30,000-cell byte tape, the storage register, the two pointers, and the
/// buffered input and output byte streams.
pub struct Program {
    instructions: Vec<Instruction>,
    tape: Vec<u8>,
    register: u8,
    ins_ptr: usize,
    data_ptr: usize,
    input: Vec<u8>,
    output: Vec<u8>,
    failed: bool,
}

impl View for Program {
    type V = VmState;

    closed spec fn view(&self) -> VmState {
        VmState {
            instructions: self.instructions@,
            tape: self.tape@,
            register: self.register,
            ins_ptr: self.ins_ptr as int,
            data_ptr: self.data_ptr as int,
            input: self.input@,
            output: self.output@,
            failed: self.failed,
        }
    }
}

impl Program {
    /// Well-formedness: established by the constructor and preserved by
    /// every method.
    pub closed spec fn wf(&self) -> bool {
        vm_inv(self@)
    }

    /// Makes a program from a set of instructions. The tape and the
    /// register start zeroed, both pointers at zero, and the input and
    /// output streams empty.
    pub fn new(instructions: Vec<Instruction>) -> (prog: Program)
        requires
            targets_ok(instructions@),
        ensures
            prog.wf(),
            prog@ == initial_state(instructions@),
    {
        let mut tape: Vec<u8> = Vec::new();
        while tape.len() < TAPE_LEN
            invariant
                tape@.len() <= TAPE_LEN,
                forall|i: int| 0 <= i < tape@.len() ==> tape@[i] == 0u8,
            decreases TAPE_LEN - tape@.len(),
        {
            tape.push(0u8);
        }
        let prog = Program {
            instructions,
            tape,
            register: 0,
            ins_ptr: 0,
            data_ptr: 0,
            input: Vec::new(),
            output: Vec::new(),
            failed: false,
        };
        proof {
            assert(prog@.tape =~= initial_state(prog@.instructions).tape);
            assert(prog@ =~= initial_state(prog@.instructions));
        }
        prog
    }

    /// Returns whether the program has completed execution.
    pub fn is_done(&self) -> (r: bool)
        ensures
            r == done(self@),
    {
        self.ins_ptr >= self.instructions.len()
    }

    /// Returns the instruction that will be run next, if there is one.
    pub fn get_next_ins(&self) -> (r: Option<Instruction>)
        requires
            self.wf(),
        ensures
            r == (if done(self@) {
                Option::<Instruction>::None
            } else {
                Option::Some(self@.instructions[self@.ins_ptr])
            }),
    {
        if self.ins_ptr >= self.instructions.len() {
            Option::None
        } else {
            Option::Some(self.instructions[self.ins_ptr])
        }
    }

    /// Returns the current value in storage.
    pub fn get_stg(&self) -> (r: u8)
        ensures
            r == self@.register,
    {
        self.register
    }

    /// Returns the current pointer value.
    pub fn get_data_ptr(&self) -> (r: usize)
        ensures
            r == self@.data_ptr,
    {
        self.data_ptr
    }

    /// Returns the current value at the current pointer.
    pub fn get_val(&self) -> (r: u8)
        requires
            self.wf(),
        ensures
            r == self@.tape[self@.data_ptr],
    {
        self.tape[self.data_ptr]
    }

    /// Returns the data tape of the program.
    pub fn get_data(&self) -> (r: &[u8])
        ensures
            r@ == self@.tape,
    {
        self.tape.as_slice()
    }

    /// Returns the bytes the program has written to its output stream so
    /// far.
    pub fn get_output(&self) -> (r: &[u8])
        ensures
            r@ == self@.output,
    {
        self.output.as_slice()
    }

    /// Returns the error raised by an input instruction that found the
    /// input stream exhausted, if any.
    pub fn io_error(&self) -> (r: Option<IoError>)
        ensures
            r == (if self@.failed {
                Option::Some(IoError::InputExhausted)
            } else {
                Option::<IoError>::None
            }),
    {
        if self.failed {
            Option::Some(IoError::InputExhausted)
        } else {
            Option::None
        }
    }

    /// Appends one byte to the pending input stream.
    pub fn provide_input(&mut self, byte: u8)
        requires
            old(self).wf(),
        ensures
            final(self).wf(),
            final(self)@ == (VmState { input: old(self)@.input.push(byte), ..old(self)@ }),
    {
        self.input.push(byte);
    }

    /// Runs a single instruction for the program.
    /// Returns false if the program cannot continue: it has finished, or an
    /// input instruction found the input stream exhausted.
    pub fn step(&mut self) -> (cont: bool)
        requires
            old(self).wf(),
        ensures
            final(self).wf(),
            can_step(old(self)@) ==> final(self)@ == step_model(old(self)@),
            !can_step(old(self)@) ==> final(self)@ == old(self)@,
            cont == can_step(final(self)@),
    {
        if self.failed || self.ins_ptr >= self.instructions.len() {
            return false;
        }
        proof {
            assert(target_ok_at(self@.instructions, self@.ins_ptr));
        }
        let ins = self.instructions[self.ins_ptr];
        match ins {
            Instruction::IncPtr => {
                self.data_ptr = if self.data_ptr + 1 == TAPE_LEN {
                    0
                } else {
                    self.data_ptr + 1
                };
            },
            Instruction::DecPtr => {
                self.data_ptr = if self.data_ptr == 0 {
                    TAPE_LEN - 1
                } else {
                    self.data_ptr - 1
                };
            },
            Instruction::IncVal => {
                let v = self.tape[self.data_ptr];
                self.tape[self.data_ptr] = if v == 255 { 0 } else { v + 1 };
            },
            Instruction::DecVal => {
                let v = self.tape[self.data_ptr];
                self.tape[self.data_ptr] = if v == 0 { 255 } else { v - 1 };
            },
            Instruction::Output => {
                let v = self.tape[self.data_ptr];
                self.output.push(v);
            },
            Instruction::Input => {
                if self.input.len() == 0 {
                    self.failed = true;
                    return false;
                }
                let b = self.input.remove(0);
                self.tape[self.data_ptr] = b;
            },
            Instruction::JmpFwd(t) => {
                if self.tape[self.data_ptr] == 0 {
                    self.ins_ptr = t;
                }
            },
            Instruction::JmpBk(t) => {
                if self.tape[self.data_ptr] != 0 {
                    self.ins_ptr = t;
                }
            },
            Instruction::Stop => {
                self.ins_ptr = self.instructions.len() - 1;
            },
            Instruction::Store => {
                self.register = self.tape[self.data_ptr];
            },
            Instruction::Retr => {
                self.tape[self.data_ptr] = self.register;
            },
            Instruction::Rshift => {
                let v = self.tape[self.data_ptr];
                self.tape[self.data_ptr] = v >> 1u8;
            },
            Instruction::Lshift => {
                let v = self.tape[self.data_ptr];
                self.tape[self.data_ptr] = v << 1u8;
            },
            Instruction::Not => {
                let v = self.tape[self.data_ptr];
                self.tape[self.data_ptr] = !v;
            },
            Instruction::Xor => {
                let v = self.tape[self.data_ptr];
                self.tape[self.data_ptr] = v ^ self.register;
            },
            Instruction::And => {
                let v = self.tape[self.data_ptr];
                self.tape[self.data_ptr] = v & self.register;
            },
            Instruction::Or => {
                let v = self.tape[self.data_ptr];
                self.tape[self.data_ptr] = v | self.register;
            },
        }
        self.ins_ptr = self.ins_ptr + 1;
        self.ins_ptr < self.instructions.len()
    }

    /// Runs through the program: steps until the machine is done, an input
    /// instruction finds the input stream exhausted, or `max_steps`
    /// instructions have been executed. Returns true when execution cannot
    /// continue any further.
    ///
    /// The language is Turing-complete, so a budget on the number of steps
    /// is what makes this call terminate; a caller that wants
    /// run-to-completion drives [`Program::step`] in its own loop.
    pub fn run(&mut self, max_steps: u64) -> (finished: bool)
        requires
            old(self).wf(),
        ensures
            final(self).wf(),
            final(self)@ == iterate(old(self)@, max_steps as nat),
            finished == !can_step(final(self)@),
    {
        let ghost m0: VmState = self@;
        let mut i: u64 = 0;
        while i < max_steps
            invariant
                i <= max_steps,
                self.wf(),
                self@ == iterate(m0, i as nat),
            ensures
                self.wf(),
                i <= max_steps,
                self@ == iterate(m0, i as nat),
                i < max_steps ==> !can_step(self@),
            decreases max_steps - i,
        {
            let ghost pre: VmState = self@;
            let cont = self.step();
            proof {
                if can_step(pre) {
                    assert(self@ == iterate(m0, i as nat + 1));
                } else {
                    assert(self@ == iterate(m0, i as nat));
                }
            }
            i = i + 1;
            if !cont {
                break;
            }
        }
        proof {
            if i < max_steps {
                lemma_iterate_stall(m0, i as nat, max_steps as nat);
            }
        }
        !self.can_continue()
    }

    /// A formatted dump of the machine for debugging and inspection:
    /// pointer, storage register, and the full tape as rows of 150
    /// right-aligned three-digit values.
    pub fn render(&self) -> (r: String)
        requires
            self.wf(),
        ensures
            r@ == render_vm(self@),
    {
        let mut s = String::new();
        s.append("Pointer: ");
        push_dec(&mut s, self.data_ptr as u64);
        s.append("\nStorage: ");
        push_dec(&mut s, self.register as u64);
        s.append("\nData:");
        let ghost head = s@;
        proof {
            assert(head =~= "Pointer: "@ + dec_rep(self@.data_ptr as nat) + "\nStorage: "@
                + dec_rep(self@.register as nat) + "\nData:"@);
        }
        let mut i: usize = 0;
        while i < TAPE_LEN
            invariant
                self.wf(),
                i <= TAPE_LEN,
                s@ == head + render_cells(self@.tape, i as int),
                head == "Pointer: "@ + dec_rep(self@.data_ptr as nat) + "\nStorage: "@
                    + dec_rep(self@.register as nat) + "\nData:"@,
            decreases TAPE_LEN - i,
        {
            let ghost row_start = s@;
            if i % 150 == 0 {
                s.append("\n");
                proof {
                    reveal_strlit("\n");
                    assert(s@ =~= row_start + cell_sep(i as int));
                }
            } else {
                s.append(", ");
                proof {
                    reveal_strlit(", ");
                    assert(s@ =~= row_start + cell_sep(i as int));
                }
            }
            push_cell(&mut s, self.tape[i]);
            proof {
                assert(s@ =~= head + render_cells(self@.tape, i as int + 1));
            }
            i = i + 1;
        }
        s.append("\n");
        proof {
            reveal_strlit("\n");
            assert(s@ =~= render_vm(self@));
        }
        s
    }

    /// Returns whether a further step would still execute an instruction.
    pub fn can_continue(&self) -> (r: bool)
        ensures
            r == can_step(self@),
    {
        !self.failed && self.ins_ptr < self.instructions.len()
    }
}

} // verus!
