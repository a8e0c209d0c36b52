//! The machine: its registers, instructions and labels, the scanner that
//! turns source text into tokens, and the loop that runs them.

use crate::asm_value::{ASMValue, ValueView};
use crate::scanner::{
    accepts_source, argument_accepted, argument_node, argument_token, empty_argument_message,
    label_name, lemma_split_nonempty, line_accepted, line_words, scan_argument, scan_arguments,
    scan_line, scan_lines, scan_mnemonic, source_accepted, source_lines, squeeze,
    unknown_instruction_message,
};
use crate::semantics::{
    decide, invalid_destination_message, invalid_label_message, invoked, lemma_run_one_more,
    one_step, runs_out, runs_to, stopped, Config, MachineView, Outcome, PendingView,
};
use crate::table::Table;
use crate::text::{
    filter_chars, from_chars, split_chars, strip_comment_chars, to_chars, trim_end_chars, views,
    CharClass,
};
use vstd::prelude::*;

verus! {

/// One token of a scanned program.
#[derive(Debug)]
pub enum ASTNode {
    /// An operand: a literal or the name of a label.
    ASTValue(ASMValue),
    /// The name of the instruction that opens a statement.
    ASTInstruction(String),
    /// An operand that names a register.
    ASTRegister(String),
    /// The end of a statement.
    ASTExprEnd,
}

/// What a token says, with names as sequences of characters.
pub enum TokenView {
    Value(ValueView),
    Instruction(Seq<char>),
    Register(Seq<char>),
    ExprEnd,
}

impl View for ASTNode {
    type V = TokenView;

    open spec fn view(&self) -> TokenView {
        match self {
            ASTNode::ASTValue(value) => TokenView::Value(value@),
            ASTNode::ASTInstruction(name) => TokenView::Instruction(name@),
            ASTNode::ASTRegister(name) => TokenView::Register(name@),
            ASTNode::ASTExprEnd => TokenView::ExprEnd,
        }
    }
}

impl DeepView for ASTNode {
    type V = TokenView;

    open spec fn deep_view(&self) -> TokenView {
        self@
    }
}

impl Clone for ASTNode {
    fn clone(&self) -> (r: Self)
        ensures
            r@ == self@,
    {
        match self {
            ASTNode::ASTValue(value) => ASTNode::ASTValue(value.clone()),
            ASTNode::ASTInstruction(name) => ASTNode::ASTInstruction(name.clone()),
            ASTNode::ASTRegister(name) => ASTNode::ASTRegister(name.clone()),
            ASTNode::ASTExprEnd => ASTNode::ASTExprEnd,
        }
    }
}

/// An instruction: what the machine does when a statement that names it
/// ends. The host supplies the instructions, as values of one type of its
/// own choice; a type that wraps a plain function will do.
pub trait Instruction: Sized {
    /// What a call may do to the machine: whether a call with `args` on the
    /// machine `before` may leave the machine `after`. An instruction that
    /// promises nothing leaves this as it is; one that is verified can say
    /// here what it does, and what is proved of a run then rests on it.
    open spec fn effect(
        &self,
        before: MachineView<Self>,
        args: Seq<ValueView>,
        after: MachineView<Self>,
    ) -> bool {
        true
    }

    /// Carries the instruction out on `machine`, with the arguments of the
    /// statement.
    fn execute(&self, machine: &mut ASMDefinition<Self>, args: Vec<ASMValue>)
        ensures
            self.effect(old(machine)@, args.deep_view(), final(machine)@),
    ;
}

/// The machine. It owns the registers, the instructions and the labels,
/// and keeps the place in the program.
pub struct ASMDefinition<I> {
    registers: Table<ASMValue>,
    instructions: Table<I>,
    labels: Table<usize>,
    current_line: usize,
    stepped_back: bool,
    halted: bool,
    diagnostics: Vec<String>,
}

impl<I> View for ASMDefinition<I> {
    type V = MachineView<I>;

    closed spec fn view(&self) -> MachineView<I> {
        MachineView {
            registers: self.registers@.map_values(|v: ASMValue| v@),
            instructions: self.instructions@,
            labels: self.labels@,
            cursor: if self.stepped_back {
                self.current_line - 1
            } else {
                self.current_line as int
            },
            halted: self.halted,
            diagnostics: self.diagnostics.deep_view(),
        }
    }
}

impl<I> ASMDefinition<I> {
    /// A machine without registers, instructions or labels, at the start of
    /// the program.
    pub fn new() -> (machine: Self)
        ensures
            machine@ == (MachineView::<I> {
                registers: Map::empty(),
                instructions: Map::empty(),
                labels: Map::empty(),
                cursor: 0,
                halted: false,
                diagnostics: Seq::empty(),
            }),
    {
        ASMDefinition {
            registers: Table::new(),
            instructions: Table::new(),
            labels: Table::new(),
            current_line: 0,
            stepped_back: false,
            halted: false,
            diagnostics: Vec::new(),
        }
    }

    /// Adds the register `reg_name`, holding no value yet. A register of
    /// that name that was there before is emptied.
    pub fn insert_register(self, reg_name: &str) -> (machine: Self)
        ensures
            machine@ == self@.with_register(reg_name@, ValueView::Empty),
    {
        let mut machine = self;
        machine.registers.set(reg_name, ASMValue::new_empty());
        machine
    }

    /// Adds `instruction` under `instruction_name`, in place of the one that
    /// had the name before, if any had.
    pub fn insert_instruction(self, instruction_name: &str, instruction: I) -> (machine: Self)
        ensures
            machine@ == (MachineView {
                instructions: self@.instructions.insert(instruction_name@, instruction),
                ..self@
            }),
    {
        let mut machine = self;
        machine.instructions.set(instruction_name, instruction);
        machine
    }

    /// Raises an error: records its message, counts it, and halts the
    /// machine if `halt_execution` is set. Control returns to the caller.
    pub fn raise_exception(&mut self, error_message: &str, halt_execution: bool)
        ensures
            final(self)@ == old(self)@.raised(error_message@, halt_execution),
    {
        self.diagnostics.push(error_message.to_owned());
        if halt_execution {
            self.halted = true;
        }
    }

    /// Sets the cursor one token before `destination`, so that the token
    /// at `destination` is the next one processed once the loop has moved
    /// on from the current one. A jump to 0 leaves the cursor before the
    /// first token: the loop moves on from there to the first token, and a
    /// run that starts from there processes nothing.
    pub fn jump(&mut self, destination: usize)
        ensures
            final(self)@ == old(self)@.at(destination - 1),
    {
        self.current_line = destination;
        self.stepped_back = true;
    }

    /// Jumps to the token whose index `value` gives. A value that is no
    /// integer, and that names no register holding one, is an error that
    /// halts the machine.
    pub fn jump_to_value(&mut self, value: ASMValue)
        ensures
            final(self)@ == old(self)@.jumped_to_value(value@),
            value@ is Label ==> final(self)@ == old(self)@.raised(
                invalid_destination_message(),
                true,
            ),
    {
        match self.read_value(&value) {
            ASMValue::Int(n) => {
                let destination: usize = if n >= 0 {
                    n as usize
                } else {
                    usize::MAX - ((-(n + 1)) as usize)
                };
                self.jump(destination);
            },
            _ => {
                self.raise_exception("Invalid value of provided destination!", true);
            },
        }
    }

    /// Jumps to the token that the label `label` stands for. A value that
    /// is no label, or a label that the program does not declare, is an
    /// error that halts the machine.
    pub fn jump_to_label(&mut self, label: ASMValue)
        ensures
            final(self)@ == old(self)@.jumped_to_label(label@),
            label@ is Int ==> final(self)@ == old(self)@.raised(invalid_label_message(), true),
    {
        if let ASMValue::Label(name) = self.read_value(&label) {
            if let Some(index) = self.labels.get(name.as_str()) {
                let destination: usize = *index;
                self.jump(destination);
                return ;
            }
        }
        self.raise_exception("Invalid label provided!", true);
    }

    /// What `value` stands for: for a register reference what the register
    /// holds, for any other value the value itself.
    pub fn read_value(&self, value: &ASMValue) -> (r: ASMValue)
        ensures
            r@ == self@.read(value@),
    {
        match value {
            ASMValue::Register(name) => match self.registers.get(name.as_str()) {
                Some(held) => held.clone(),
                None => ASMValue::new_empty(),
            },
            _ => value.clone(),
        }
    }

    /// What the register `name` holds, if there is such a register.
    pub fn get_register(&self, name: &str) -> (r: Option<ASMValue>)
        ensures
            match r {
                Some(value) => self@.registers.contains_key(name@) && value@
                    == self@.registers[name@],
                None => !self@.registers.contains_key(name@),
            },
    {
        match self.registers.get(name) {
            Some(held) => Some(held.clone()),
            None => None,
        }
    }

    /// Stores `value` in the register `name`. Where there is no such
    /// register nothing changes, and the answer is `false`.
    pub fn set_register(&mut self, name: &str, value: ASMValue) -> (stored: bool)
        ensures
            stored == old(self)@.registers.contains_key(name@),
            final(self)@ == if stored {
                old(self)@.with_register(name@, value@)
            } else {
                old(self)@
            },
    {
        if self.registers.contains(name) {
            self.registers.set(name, value);
            true
        } else {
            false
        }
    }

    /// The index that the label `name` stands for, if the program declares
    /// it.
    pub fn label_index(&self, name: &str) -> (r: Option<usize>)
        ensures
            r == (if self@.labels.contains_key(name@) {
                Some(self@.labels[name@])
            } else {
                None
            }),
    {
        match self.labels.get(name) {
            Some(index) => Some(*index),
            None => None,
        }
    }

    /// The names of the registers.
    pub fn register_names(&self) -> (r: Vec<String>)
        ensures
            forall|name: Seq<char>|
                self@.registers.contains_key(name) <==> exists|i: int|
                    0 <= i < r@.len() && (#[trigger] r@[i])@ == name,
            forall|i: int, j: int|
                0 <= i < j < r@.len() ==> (#[trigger] r@[i])@ != (#[trigger] r@[j])@,
    {
        self.registers.names()
    }

    /// The names of the instructions.
    pub fn instruction_names(&self) -> (r: Vec<String>)
        ensures
            forall|name: Seq<char>|
                self@.instructions.contains_key(name) <==> exists|i: int|
                    0 <= i < r@.len() && (#[trigger] r@[i])@ == name,
            forall|i: int, j: int|
                0 <= i < j < r@.len() ==> (#[trigger] r@[i])@ != (#[trigger] r@[j])@,
    {
        self.instructions.names()
    }

    /// Whether an instruction is registered under `name`.
    pub fn has_instruction(&self, name: &str) -> (r: bool)
        ensures
            r == self@.instructions.contains_key(name@),
    {
        self.instructions.contains(name)
    }

    /// Whether the machine has stopped for good.
    pub fn is_halted(&self) -> (r: bool)
        ensures
            r == self@.halted,
    {
        self.halted
    }

    /// How many errors were raised.
    pub fn error_count(&self) -> (r: usize)
        ensures
            r == self@.error_count(),
    {
        self.diagnostics.len()
    }

    /// The messages of the errors raised, oldest first.
    pub fn diagnostics(&self) -> (r: Vec<String>)
        ensures
            r.deep_view() == self@.diagnostics,
    {
        let mut r: Vec<String> = Vec::new();
        let mut i: usize = 0;
        while i < self.diagnostics.len()
            invariant
                i <= self.diagnostics.len(),
                r@.len() == i,
                forall|j: int| 0 <= j < i ==> (#[trigger] r@[j])@ == self.diagnostics@[j]@,
            decreases self.diagnostics.len() - i,
        {
            r.push(self.diagnostics[i].clone());
            i = i + 1;
        }
        assert(r.deep_view() =~= self.diagnostics.deep_view());
        r
    }

    /// The index of the token that is processed next, or `None` right
    /// after a jump to index 0, when the cursor is one step before the
    /// first token.
    pub fn position(&self) -> (r: Option<usize>)
        ensures
            r == (if self@.cursor >= 0 {
                Some(self@.cursor as usize)
            } else {
                None
            }),
    {
        if !self.stepped_back {
            Some(self.current_line)
        } else if self.current_line > 0 {
            Some(self.current_line - 1)
        } else {
            None
        }
    }

    /// Moves the cursor one token on.
    fn advance(&mut self)
        ensures
            final(self)@ == old(self)@.advanced(),
    {
        if self.stepped_back {
            self.stepped_back = false;
        } else if self.current_line < usize::MAX {
            self.current_line = self.current_line + 1;
        }
    }

    /// Whether a run of `token_stream` stops here: the machine is halted,
    /// or the cursor is outside the program.
    pub fn is_stopped(&self, token_stream: &Vec<ASTNode>) -> (r: bool)
        ensures
            r == stopped(token_stream.deep_view(), self@),
    {
        let length: usize = token_stream.len();
        if self.halted {
            true
        } else if self.stepped_back {
            self.current_line == 0 || self.current_line - 1 >= length
        } else {
            self.current_line >= length
        }
    }

    /// Reads the name of an instruction off `word`, ignoring white space in
    /// it. A name that the machine does not know is an error that halts the
    /// machine; the token is given all the same.
    pub fn match_instruction(&mut self, word: String) -> (node: ASTNode)
        ensures
            node@ == TokenView::Instruction(squeeze(word@)),
            final(self)@ == if old(self)@.instructions.contains_key(squeeze(word@)) {
                old(self)@
            } else {
                old(self)@.raised(unknown_instruction_message(squeeze(word@)), true)
            },
    {
        let chars = to_chars(word.as_str());
        let name = from_chars(&filter_chars(&chars, CharClass::Whitespace, false));
        if !self.instructions.contains(name.as_str()) {
            let mut message = name.clone();
            message.append(" is an unknown instruction");
            self.raise_exception(message.as_str(), true);
        }
        ASTNode::ASTInstruction(name)
    }

    /// Reads an argument off `word`, ignoring white space in it. A word of
    /// digits is an integer, a word of letters and digits a label, a word
    /// in square brackets a register. An empty word is an error that halts
    /// the machine, and gives the token that ends a statement. Any other
    /// word gives that token too, and no error.
    pub fn match_argument(&mut self, word: String) -> (node: ASTNode)
        requires
            argument_accepted(word@),
        ensures
            node@ == argument_token(word@),
            final(self)@ == if squeeze(word@).len() == 0 {
                old(self)@.raised(empty_argument_message(), true)
            } else {
                old(self)@
            },
    {
        let chars = to_chars(word.as_str());
        if filter_chars(&chars, CharClass::Whitespace, false).len() == 0 {
            self.raise_exception("Empty argument!", true);
        }
        argument_node(&chars)
    }

    /// Scans the source text `code` into tokens, line by line. Labels are
    /// bound as they are met, each to the index of the token that follows
    /// it. Errors are recorded and halt the machine, but the scan goes on
    /// to the end of the text.
    pub fn scan(&mut self, code: String) -> (tokens: Vec<ASTNode>)
        requires
            source_accepted(code@),
        ensures
            tokens.deep_view() == old(self)@.tokens_of(code@),
            final(self)@ == old(self)@.after_scan(code@),
    {
        let ghost start = self@;
        let ghost known = start.instructions.dom();
        let chars = to_chars(code.as_str());
        let lines = split_chars(&chars, '\n');
        let mut output: Vec<ASTNode> = Vec::new();
        let mut i: usize = 0;
        assert(views(lines@).take(0) == Seq::<Seq<char>>::empty());
        assert(self@ == start.scanned(start.scan_state(Seq::empty())));
        assert(output.deep_view() == Seq::<TokenView>::empty());
        while i < lines.len()
            invariant
                i <= lines.len(),
                views(lines@) == source_lines(code@),
                source_accepted(code@),
                known == start.instructions.dom(),
                self@ == start.scanned(
                    scan_lines(known, start.scan_state(Seq::empty()), views(lines@).take(i as int)),
                ),
                output.deep_view() == scan_lines(
                    known,
                    start.scan_state(Seq::empty()),
                    views(lines@).take(i as int),
                ).tokens,
            decreases lines.len() - i,
        {
            let ghost before = scan_lines(
                known,
                start.scan_state(Seq::empty()),
                views(lines@).take(i as int),
            );
            proof {
                assert(views(lines@).take(i + 1).drop_last() == views(lines@).take(i as int));
                assert(views(lines@).take(i + 1).last() == lines@[i as int]@);
                assert(line_accepted(source_lines(code@)[i as int]));
                assert(self@.scan_state(output.deep_view()) == before);
            }
            self.scan_one_line(&lines[i], &mut output);
            assert(self@ == start.scanned(scan_line(known, before, lines@[i as int]@)));
            i = i + 1;
        }
        assert(views(lines@).take(lines.len() as int) == views(lines@));
        output
    }

    /// Scans one line and adds its tokens to `output`: what `scan` does
    /// for each line of the text.
    fn scan_one_line(&mut self, line: &Vec<char>, output: &mut Vec<ASTNode>)
        requires
            line_accepted(line@),
        ensures
            final(self)@ == old(self)@.scanned(
                scan_line(
                    old(self)@.instructions.dom(),
                    old(self)@.scan_state(old(output).deep_view()),
                    line@,
                ),
            ),
            final(output).deep_view() == scan_line(
                old(self)@.instructions.dom(),
                old(self)@.scan_state(old(output).deep_view()),
                line@,
            ).tokens,
    {
        let ghost start = self@;
        let ghost known = start.instructions.dom();
        let ghost before = start.scan_state(output.deep_view());
        assert(start == start.scanned(before));
        let stripped = strip_comment_chars(line);
        let body = trim_end_chars(&stripped);
        if body.len() == 0 {
            return ;
        }
        let words = split_chars(&body, ' ');
        proof {
            lemma_split_nonempty(body@, ' ');
        }
        let first = &words[0];
        if first[first.len() - 1] == ':' {
            let label = from_chars(&filter_chars(first, CharClass::Exactly(':'), false));
            self.labels.set(label.as_str(), output.len());
            assert(self@ == start.scanned(before.bind(label_name(line@))));
            return ;
        }
        let mnemonic = self.match_instruction(from_chars(first));
        output.push(mnemonic);
        let ghost opened = scan_mnemonic(known, before, line_words(line@).first());
        let ghost rest = line_words(line@).skip(1);
        assert(self@ == start.scanned(opened));
        assert(output.deep_view() == opened.tokens);
        assert(rest.take(0) == Seq::<Seq<char>>::empty());
        let mut j: usize = 1;
        while j < words.len()
            invariant
                1 <= j <= words.len(),
                views(words@) == line_words(line@),
                rest == line_words(line@).skip(1),
                forall|k: int| 1 <= k < words.len() ==> argument_accepted(
                    #[trigger] line_words(line@)[k],
                ),
                self@ == start.scanned(scan_arguments(opened, rest.take(j - 1))),
                output.deep_view() == scan_arguments(opened, rest.take(j - 1)).tokens,
            decreases words.len() - j,
        {
            proof {
                assert(rest.take(j as int).drop_last() == rest.take(j - 1));
                assert(rest.take(j as int).last() == line_words(line@)[j as int]);
            }
            let ghost so_far = scan_arguments(opened, rest.take(j - 1));
            let word = from_chars(&words[j]);
            let node = self.match_argument(word);
            output.push(node);
            assert(self@ == start.scanned(scan_argument(so_far, line_words(line@)[j as int])));
            assert(output.deep_view() == scan_argument(
                so_far,
                line_words(line@)[j as int],
            ).tokens);
            j = j + 1;
        }
        assert(rest.take(words.len() - 1) == rest);
        output.push(ASTNode::ASTExprEnd);
        assert(output.deep_view() == scan_arguments(opened, rest).emit(TokenView::ExprEnd).tokens);
        assert(self@ == start.scanned(scan_arguments(opened, rest).emit(TokenView::ExprEnd)));
    }

    /// Scans `code` if the scanner takes it, and otherwise leaves the
    /// machine as it is.
    pub fn try_scan(&mut self, code: String) -> (r: Option<Vec<ASTNode>>)
        ensures
            r is Some <==> source_accepted(code@),
            match r {
                Some(tokens) => tokens.deep_view() == old(self)@.tokens_of(code@) && final(self)@
                    == old(self)@.after_scan(code@),
                None => final(self)@ == old(self)@,
            },
    {
        if accepts_source(code.as_str()) {
            Some(self.scan(code))
        } else {
            None
        }
    }
}

/// What the loop keeps between tokens: the instruction of the statement that
/// is open, if one is, and the arguments gathered so far.
pub struct Pending<I> {
    instruction: Option<I>,
    args: Vec<ASMValue>,
}

impl<I> View for Pending<I> {
    type V = PendingView<I>;

    closed spec fn view(&self) -> PendingView<I> {
        PendingView { instruction: self.instruction, args: self.args.deep_view() }
    }
}

impl<I> Pending<I> {
    /// No statement is open.
    pub fn new() -> (pending: Self)
        ensures
            pending@ == PendingView::<I>::idle(),
    {
        let pending = Pending { instruction: None, args: Vec::new() };
        assert(pending.args.deep_view() =~= Seq::empty());
        pending
    }

    /// Whether a statement is open.
    pub fn is_collecting(&self) -> (r: bool)
        ensures
            r == self@.instruction is Some,
    {
        self.instruction.is_some()
    }
}

impl<I: Instruction + Copy> ASMDefinition<I> {
    /// Processes the token under the cursor and moves the cursor on.
    pub fn step(&mut self, token_stream: &Vec<ASTNode>, pending: &mut Pending<I>)
        requires
            !stopped(token_stream.deep_view(), old(self)@),
        ensures
            one_step(
                token_stream.deep_view(),
                Config { machine: old(self)@, pending: old(pending)@ },
                Config { machine: final(self)@, pending: final(pending)@ },
            ),
    {
        let ghost tokens = token_stream.deep_view();
        let ghost before = Config { machine: self@, pending: pending@ };
        let index: usize = if self.stepped_back {
            self.current_line - 1
        } else {
            self.current_line
        };
        assert(tokens[index as int] == token_stream@[index as int]@);
        match &token_stream[index] {
            ASTNode::ASTValue(value) => {
                if pending.instruction.is_none() {
                    self.raise_exception("ASTValue encountered with no instruction present", true);
                } else {
                    pending.args.push(value.clone());
                }
                self.advance();
            },
            ASTNode::ASTInstruction(name) => {
                if pending.instruction.is_some() {
                    self.raise_exception(
                        "ASTInstruction encountered when another instruction is called",
                        true,
                    );
                } else {
                    match self.instructions.get(name.as_str()) {
                        Some(instruction) => {
                            pending.instruction = Some(*instruction);
                            pending.args = Vec::new();
                        },
                        None => {
                            self.raise_exception("Not a valid instruction", true);
                        },
                    }
                }
                self.advance();
            },
            ASTNode::ASTRegister(name) => {
                if pending.instruction.is_none() {
                    self.raise_exception(
                        "Register reference encountered with no instruction present",
                        false,
                    );
                }
                if self.registers.contains(name.as_str()) {
                    pending.args.push(ASMValue::new_reg(name.clone()));
                } else {
                    self.raise_exception("Register not defined in ASMDefinition", true);
                }
                self.advance();
            },
            ASTNode::ASTExprEnd => {
                match pending.instruction {
                    Some(instruction) => {
                        let mut args: Vec<ASMValue> = Vec::new();
                        core::mem::swap(&mut pending.args, &mut args);
                        pending.instruction = None;
                        let ghost given = args.deep_view();
                        instruction.execute(self, args);
                        let ghost done = self@;
                        self.advance();
                        proof {
                            let after = Config { machine: self@, pending: pending@ };
                            assert(before.pending.instruction == Some(instruction));
                            assert(before.pending.args == given);
                            assert(decide(tokens[before.machine.cursor], before)
                                == Outcome::Invoke(instruction, given));
                            assert(after.pending =~~= PendingView::<I>::idle());
                            assert(instruction.effect(before.machine, given, done)
                                && after.machine == done.advanced());
                            assert(invoked(instruction, given, before.machine, after));
                        }
                    },
                    None => {
                        self.advance();
                    },
                }
            },
        }
        let ghost after = Config { machine: self@, pending: pending@ };
        assert(match decide(tokens[before.machine.cursor], before) {
            Outcome::Next(next) => after =~~= next,
            Outcome::Invoke(_, _) => one_step(tokens, before, after),
        });
    }

    /// Processes tokens from the cursor on, until the machine is halted,
    /// the cursor leaves the program, or `limit` tokens were processed.
    /// Says how many were.
    pub fn run_steps(&mut self, token_stream: &Vec<ASTNode>, limit: u64) -> (taken: u64)
        ensures
            taken <= limit,
            exists|pending: PendingView<I>| #[trigger]
                runs_to(
                    token_stream.deep_view(),
                    Config { machine: old(self)@, pending: PendingView::idle() },
                    taken as nat,
                    Config { machine: final(self)@, pending },
                ),
            taken == limit || stopped(token_stream.deep_view(), final(self)@),
    {
        let ghost tokens = token_stream.deep_view();
        let ghost from = Config { machine: self@, pending: PendingView::idle() };
        let mut pending: Pending<I> = Pending::new();
        let mut taken: u64 = 0;
        while taken < limit && !self.is_stopped(token_stream)
            invariant
                taken <= limit,
                tokens == token_stream.deep_view(),
                runs_to(tokens, from, taken as nat, Config { machine: self@, pending: pending@ }),
            decreases limit - taken,
        {
            let ghost middle = Config { machine: self@, pending: pending@ };
            self.step(token_stream, &mut pending);
            proof {
                lemma_run_one_more(
                    tokens,
                    from,
                    taken as nat,
                    middle,
                    Config { machine: self@, pending: pending@ },
                );
            }
            taken = taken + 1;
        }
        taken
    }

    /// Runs the program `token_stream` from the cursor on, until the
    /// machine is halted or the cursor leaves the program. A run is cut
    /// off after `u64::MAX` tokens.
    pub fn run(&mut self, token_stream: Vec<ASTNode>)
        ensures
            runs_out(token_stream.deep_view(), old(self)@, final(self)@),
    {
        self.run_steps(&token_stream, u64::MAX);
    }

    /// Scans the source text `code` and runs the tokens that it gives.
    pub fn interpret(&mut self, code: String)
        requires
            source_accepted(code@),
        ensures
            runs_out(old(self)@.tokens_of(code@), old(self)@.after_scan(code@), final(self)@),
    {
        let ast = self.scan(code);
        self.run(ast);
    }

    /// Scans and runs `code` if the scanner takes it, and otherwise leaves
    /// the machine as it is. Says whether it ran.
    pub fn try_interpret(&mut self, code: String) -> (ran: bool)
        ensures
            ran == source_accepted(code@),
            !ran ==> final(self)@ == old(self)@,
            ran ==> runs_out(
                old(self)@.tokens_of(code@),
                old(self)@.after_scan(code@),
                final(self)@,
            ),
    {
        if accepts_source(code.as_str()) {
            self.interpret(code);
            true
        } else {
            false
        }
    }
}

} // verus!
