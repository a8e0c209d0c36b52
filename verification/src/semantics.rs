//! What the machine does, stated over plain mathematical values: the view
//! of a machine, what raising an error, jumping and scanning make of it,
//! what the loop does with each token, and what it is for a run to lead
//! from one machine to another.

use crate::asm_definition::{Instruction, TokenView};
use crate::asm_value::ValueView;
use crate::scanner::{scan_source, ScanState};
use vstd::prelude::*;

verus! {

/// What a machine holds, as the contracts see it.
#[verifier::ext_equal]
pub struct MachineView<I> {
    /// The registers and what each holds.
    pub registers: Map<Seq<char>, ValueView>,
    /// The instructions, by name.
    pub instructions: Map<Seq<char>, I>,
    /// The labels and the index of the token that each stands for.
    pub labels: Map<Seq<char>, usize>,
    /// The index of the token that is processed next. A jump to index `d`
    /// leaves it at `d - 1`, for the loop to step forward from: after a
    /// jump to 0 it is -1 until that step.
    pub cursor: int,
    /// Whether the machine has stopped for good.
    pub halted: bool,
    /// The messages of the errors raised, oldest first.
    pub diagnostics: Seq<Seq<char>>,
}

impl<I> MachineView<I> {
    /// How many errors were raised.
    pub open spec fn error_count(self) -> nat {
        self.diagnostics.len()
    }

    /// The machine after an error was raised: the message is recorded,
    /// and the machine is halted if `halt` asks for it.
    pub open spec fn raised(self, message: Seq<char>, halt: bool) -> Self {
        MachineView {
            diagnostics: self.diagnostics.push(message),
            halted: self.halted || halt,
            ..self
        }
    }

    /// The machine with its cursor at `cursor`.
    pub open spec fn at(self, cursor: int) -> Self {
        MachineView { cursor, ..self }
    }

    /// The machine with its cursor one token further. The cursor stops at
    /// `usize::MAX`, which is beyond the end of any program.
    pub open spec fn advanced(self) -> Self {
        self.at(
            if self.cursor < usize::MAX {
                self.cursor + 1
            } else {
                self.cursor
            },
        )
    }

    /// What a value stands for: a register reference stands for what the
    /// register holds (nothing, where there is no such register), any other
    /// value for itself.
    pub open spec fn read(self, value: ValueView) -> ValueView {
        match value {
            ValueView::Register(name) => if self.registers.contains_key(name) {
                self.registers[name]
            } else {
                ValueView::Empty
            },
            _ => value,
        }
    }

    /// The machine with `value` stored in the register `name`.
    pub open spec fn with_register(self, name: Seq<char>, value: ValueView) -> Self {
        MachineView { registers: self.registers.insert(name, value), ..self }
    }

    /// What a scan starts from, or has reached with `tokens` emitted: the
    /// labels, the diagnostics and the halt flag are those of the machine.
    pub open spec fn scan_state(self, tokens: Seq<TokenView>) -> ScanState {
        ScanState {
            tokens,
            labels: self.labels,
            diagnostics: self.diagnostics,
            halted: self.halted,
        }
    }

    /// The machine after a scan that ended in `state`: the scan leaves the
    /// registers, the instructions and the cursor alone.
    pub open spec fn scanned(self, state: ScanState) -> Self {
        MachineView {
            labels: state.labels,
            diagnostics: state.diagnostics,
            halted: state.halted,
            ..self
        }
    }

    /// The machine after the source text `code` was scanned.
    pub open spec fn after_scan(self, code: Seq<char>) -> Self {
        self.scanned(
            scan_source(self.instructions.dom(), self.scan_state(Seq::empty()), code),
        )
    }

    /// The tokens that scanning the source text `code` gives.
    pub open spec fn tokens_of(self, code: Seq<char>) -> Seq<TokenView> {
        scan_source(self.instructions.dom(), self.scan_state(Seq::empty()), code).tokens
    }

    /// The machine after a jump to the integer that `value` stands for, or
    /// after the error that any other value gives.
    pub open spec fn jumped_to_value(self, value: ValueView) -> Self {
        match self.read(value) {
            ValueView::Int(n) => self.at(token_index(n) - 1),
            _ => self.raised(invalid_destination_message(), true),
        }
    }

    /// The machine after a jump to the label that `value` stands for, or
    /// after the error that an unknown label or any other value gives.
    pub open spec fn jumped_to_label(self, value: ValueView) -> Self {
        match self.read(value) {
            ValueView::Label(name) => if self.labels.contains_key(name) {
                self.at(self.labels[name] - 1)
            } else {
                self.raised(invalid_label_message(), true)
            },
            _ => self.raised(invalid_label_message(), true),
        }
    }
}

/// The token index that an integer names. A negative integer names the
/// index that its two's complement bits spell, far beyond any program.
pub open spec fn token_index(n: i32) -> int {
    if n >= 0 {
        n as int
    } else {
        usize::MAX + 1 + n
    }
}

/// The message for a jump to a value that is no integer.
pub open spec fn invalid_destination_message() -> Seq<char> {
    "Invalid value of provided destination!"@
}

/// The message for a jump to a value that is no known label.
pub open spec fn invalid_label_message() -> Seq<char> {
    "Invalid label provided!"@
}

/// What the loop keeps between tokens, as the contracts see it.
#[verifier::ext_equal]
pub struct PendingView<I> {
    /// The instruction of the open statement; `None` while none is open.
    pub instruction: Option<I>,
    /// The arguments gathered so far.
    pub args: Seq<ValueView>,
}

impl<I> PendingView<I> {
    /// No statement is open and no argument is gathered.
    pub open spec fn idle() -> Self {
        PendingView { instruction: None, args: Seq::empty() }
    }

    /// One more argument.
    pub open spec fn with_arg(self, value: ValueView) -> Self {
        PendingView { args: self.args.push(value), ..self }
    }
}

/// The machine together with what the loop keeps between tokens.
#[verifier::ext_equal]
pub struct Config<I> {
    pub machine: MachineView<I>,
    pub pending: PendingView<I>,
}

/// What processing a token comes to.
pub enum Outcome<I> {
    /// The machine goes on from this configuration.
    Next(Config<I>),
    /// The instruction is called with these arguments; the machine goes on
    /// from what the call leaves, one token further, with no statement open
    /// and no argument gathered.
    Invoke(I, Seq<ValueView>),
}

/// The message for a value met while no statement is open.
pub open spec fn stray_value_message() -> Seq<char> {
    "ASTValue encountered with no instruction present"@
}

/// The message for an instruction met while a statement is open.
pub open spec fn nested_instruction_message() -> Seq<char> {
    "ASTInstruction encountered when another instruction is called"@
}

/// The message for an instruction that the machine does not know.
pub open spec fn invalid_instruction_message() -> Seq<char> {
    "Not a valid instruction"@
}

/// The message for a register reference met while no statement is open.
pub open spec fn stray_register_message() -> Seq<char> {
    "Register reference encountered with no instruction present"@
}

/// The message for a reference to a register that the machine lacks.
pub open spec fn undefined_register_message() -> Seq<char> {
    "Register not defined in ASMDefinition"@
}

/// Whether the loop stops before it processes a token: the machine is
/// halted, or the cursor is outside the program.
pub open spec fn stopped<I>(tokens: Seq<TokenView>, machine: MachineView<I>) -> bool {
    machine.halted || !(0 <= machine.cursor < tokens.len())
}

/// What the loop does with `token` in the configuration `config`.
///
/// A value is added to the arguments of the open statement; with no
/// statement open it is an error that halts. An instruction opens a
/// statement with no arguments; with one open already, or under a name
/// that the machine does not know, it is an error that halts. A register
/// reference met with no statement open is an error that does not halt;
/// with or without one open, the reference is then added to the arguments
/// as a value that names the register, or is an error that halts where the
/// machine lacks the register. The end of a statement calls the
/// instruction that opened it; with none open it does nothing. After each
/// token the cursor moves one token on.
pub open spec fn decide<I>(token: TokenView, config: Config<I>) -> Outcome<I> {
    let machine = config.machine;
    let pending = config.pending;
    match token {
        TokenView::Value(value) => if pending.instruction is None {
            Outcome::Next(
                Config { machine: machine.raised(stray_value_message(), true).advanced(), pending },
            )
        } else {
            Outcome::Next(Config { machine: machine.advanced(), pending: pending.with_arg(value) })
        },
        TokenView::Instruction(name) => if pending.instruction is Some {
            Outcome::Next(
                Config {
                    machine: machine.raised(nested_instruction_message(), true).advanced(),
                    pending,
                },
            )
        } else if machine.instructions.contains_key(name) {
            Outcome::Next(
                Config {
                    machine: machine.advanced(),
                    pending: PendingView {
                        instruction: Some(machine.instructions[name]),
                        args: Seq::empty(),
                    },
                },
            )
        } else {
            Outcome::Next(
                Config {
                    machine: machine.raised(invalid_instruction_message(), true).advanced(),
                    pending,
                },
            )
        },
        TokenView::Register(name) => {
            let warned = if pending.instruction is None {
                machine.raised(stray_register_message(), false)
            } else {
                machine
            };
            if machine.registers.contains_key(name) {
                Outcome::Next(
                    Config {
                        machine: warned.advanced(),
                        pending: pending.with_arg(ValueView::Register(name)),
                    },
                )
            } else {
                Outcome::Next(
                    Config {
                        machine: warned.raised(undefined_register_message(), true).advanced(),
                        pending,
                    },
                )
            }
        },
        TokenView::ExprEnd => match pending.instruction {
            None => Outcome::Next(Config { machine: machine.advanced(), pending }),
            Some(instruction) => Outcome::Invoke(instruction, pending.args),
        },
    }
}

/// Whether a call of `instruction` with `args` on the machine `before` can
/// lead to `after`: the call leaves some machine that its `effect` allows,
/// the cursor moves one token on from there, no statement is open and no
/// argument is gathered.
pub open spec fn invoked<I: Instruction>(
    instruction: I,
    args: Seq<ValueView>,
    before: MachineView<I>,
    after: Config<I>,
) -> bool {
    &&& after.pending == PendingView::<I>::idle()
    &&& exists|done: MachineView<I>|
        #[trigger] instruction.effect(before, args, done) && after.machine == done.advanced()
}

/// Whether processing one token can lead from `before` to `after`. Where
/// an instruction is called, any machine that the call may leave counts.
pub open spec fn one_step<I: Instruction>(
    tokens: Seq<TokenView>,
    before: Config<I>,
    after: Config<I>,
) -> bool {
    &&& !stopped(tokens, before.machine)
    &&& match decide(tokens[before.machine.cursor], before) {
        Outcome::Next(next) => after == next,
        Outcome::Invoke(instruction, args) => invoked(instruction, args, before.machine, after),
    }
}

/// Whether processing `steps` tokens, one after the other, can lead from
/// `from` to `to`.
pub open spec fn runs_to<I: Instruction>(
    tokens: Seq<TokenView>,
    from: Config<I>,
    steps: nat,
    to: Config<I>,
) -> bool
    decreases steps,
{
    if steps == 0 {
        to == from
    } else {
        exists|next: Config<I>| #[trigger]
            one_step(tokens, from, next) && runs_to(tokens, next, (steps - 1) as nat, to)
    }
}

/// Whether a run of the program `tokens` can lead from the machine `from`
/// to the machine `to`: it starts with no statement open and goes on
/// until the machine is halted or the cursor is outside the program. A
/// run is cut off after `u64::MAX` tokens.
pub open spec fn runs_out<I: Instruction>(
    tokens: Seq<TokenView>,
    from: MachineView<I>,
    to: MachineView<I>,
) -> bool {
    exists|steps: nat, pending: PendingView<I>| #[trigger]
        runs_to(
            tokens,
            Config { machine: from, pending: PendingView::idle() },
            steps,
            Config { machine: to, pending },
        ) && (steps == u64::MAX || stopped(tokens, to))
}

/// A run can be carried on by one more step.
pub proof fn lemma_run_one_more<I: Instruction>(
    tokens: Seq<TokenView>,
    from: Config<I>,
    steps: nat,
    middle: Config<I>,
    to: Config<I>,
)
    requires
        runs_to(tokens, from, steps, middle),
        one_step(tokens, middle, to),
    ensures
        runs_to(tokens, from, steps + 1, to),
    decreases steps,
{
    if steps == 0 {
        assert(runs_to(tokens, to, 0, to));
        assert(one_step(tokens, from, to) && runs_to(tokens, to, 0, to));
    } else {
        let next = choose|next: Config<I>| #[trigger]
            one_step(tokens, from, next) && runs_to(tokens, next, (steps - 1) as nat, middle);
        lemma_run_one_more(tokens, next, (steps - 1) as nat, middle, to);
        assert(one_step(tokens, from, next) && runs_to(tokens, next, steps as nat, to));
    }
}

} // verus!
