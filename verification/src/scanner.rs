//! The grammar of the source text, line by line and word by word: what each
//! line adds to the tokens, the labels and the diagnostics, and which
//! sources the scanner takes at all.

use crate::asm_definition::{ASTNode, TokenView};
use crate::asm_value::{ASMValue, ValueView};
use crate::text::{
    all_of, filter_chars, filtered, from_chars, is_all_of, split, split_chars, strip_comment,
    strip_comment_chars, to_chars, trim_end, trim_end_chars, views, CharClass,
};
use vstd::prelude::*;

verus! {

/// What scanning has gathered so far.
#[verifier::ext_equal]
pub struct ScanState {
    /// The tokens emitted, in program order.
    pub tokens: Seq<TokenView>,
    /// The labels bound, each to the index of a token.
    pub labels: Map<Seq<char>, usize>,
    /// The messages of the errors met.
    pub diagnostics: Seq<Seq<char>>,
    /// Whether the machine is halted.
    pub halted: bool,
}

impl ScanState {
    /// One more token.
    pub open spec fn emit(self, token: TokenView) -> ScanState {
        ScanState { tokens: self.tokens.push(token), ..self }
    }

    /// One more error: its message is recorded and the machine halted.
    pub open spec fn report(self, message: Seq<char>) -> ScanState {
        ScanState { diagnostics: self.diagnostics.push(message), halted: true, ..self }
    }

    /// Binds `label` to the index that the next token will have.
    pub open spec fn bind(self, label: Seq<char>) -> ScanState {
        ScanState { labels: self.labels.insert(label, self.tokens.len() as usize), ..self }
    }
}

/// The message for an argument that holds nothing but white space.
pub open spec fn empty_argument_message() -> Seq<char> {
    "Empty argument!"@
}

/// The message for an instruction name that the machine does not know.
pub open spec fn unknown_instruction_message(name: Seq<char>) -> Seq<char> {
    name + " is an unknown instruction"@
}

/// A word without its white space.
pub open spec fn squeeze(word: Seq<char>) -> Seq<char> {
    filtered(word, CharClass::Whitespace, false)
}

/// Whether `c` is one of the ten decimal digits.
pub open spec fn is_digit(c: char) -> bool {
    '0' <= c <= '9'
}

/// The number that a sequence of decimal digits writes.
pub open spec fn decimal_value(digits: Seq<char>) -> int
    decreases digits.len(),
{
    if digits.len() == 0 {
        0
    } else {
        10 * decimal_value(digits.drop_last()) + (digits.last() as int - '0' as int)
    }
}

/// Whether `word` is made of decimal digits, at least one, and writes a
/// number that an `i32` can hold.
pub open spec fn is_decimal_i32(word: Seq<char>) -> bool {
    &&& word.len() > 0
    &&& forall|i: int| 0 <= i < word.len() ==> is_digit(#[trigger] word[i])
    &&& decimal_value(word) <= i32::MAX
}

/// Whether `word` opens with `[` and closes with `]`.
pub open spec fn is_bracketed(word: Seq<char>) -> bool {
    word.len() > 0 && word.first() == '[' && word.last() == ']'
}

/// Whether `word` opens and closes with a double quote.
pub open spec fn is_quoted(word: Seq<char>) -> bool {
    word.len() > 0 && word.first() == '"' && word.last() == '"'
}

/// Whether the scanner takes `word` as an argument. It does not take a
/// number that is not written in decimal digits or that no `i32` holds,
/// nor quoted text, for which the language has no value.
pub open spec fn argument_accepted(word: Seq<char>) -> bool {
    let w = squeeze(word);
    if w.len() == 0 {
        true
    } else if all_of(w, CharClass::Numeric) {
        is_decimal_i32(w)
    } else if all_of(w, CharClass::Alphanumeric) || is_bracketed(w) {
        true
    } else {
        !is_quoted(w)
    }
}

/// The token that an argument gives. White space inside the word does not
/// count. A number gives an integer, a word of letters and numbers the
/// name of a label, a word in square brackets a register, named by the
/// letters and numbers in it. Any other word closes the statement.
pub open spec fn argument_token(word: Seq<char>) -> TokenView {
    let w = squeeze(word);
    if w.len() == 0 {
        TokenView::ExprEnd
    } else if all_of(w, CharClass::Numeric) {
        TokenView::Value(ValueView::Int(decimal_value(w) as i32))
    } else if all_of(w, CharClass::Alphanumeric) {
        TokenView::Value(ValueView::Label(w))
    } else if is_bracketed(w) {
        TokenView::Register(filtered(w, CharClass::Alphanumeric, true))
    } else {
        TokenView::ExprEnd
    }
}

/// What one argument adds: its token, and an error where the word is
/// empty.
pub open spec fn scan_argument(state: ScanState, word: Seq<char>) -> ScanState {
    let checked = if squeeze(word).len() == 0 {
        state.report(empty_argument_message())
    } else {
        state
    };
    checked.emit(argument_token(word))
}

/// What the arguments of a statement add, from left to right.
pub open spec fn scan_arguments(state: ScanState, words: Seq<Seq<char>>) -> ScanState
    decreases words.len(),
{
    if words.len() == 0 {
        state
    } else {
        scan_argument(scan_arguments(state, words.drop_last()), words.last())
    }
}

/// What the name of an instruction adds: its token, and an error where
/// `known` does not hold the name.
pub open spec fn scan_mnemonic(known: Set<Seq<char>>, state: ScanState, word: Seq<char>) -> ScanState {
    let name = squeeze(word);
    let checked = if known.contains(name) {
        state
    } else {
        state.report(unknown_instruction_message(name))
    };
    checked.emit(TokenView::Instruction(name))
}

/// A line without its comment and without the white space at its end.
pub open spec fn line_body(line: Seq<char>) -> Seq<char> {
    trim_end(strip_comment(line))
}

/// The words of a line: what stands between its single spaces.
pub open spec fn line_words(line: Seq<char>) -> Seq<Seq<char>> {
    split(line_body(line), ' ')
}

/// Whether a line holds nothing to scan.
pub open spec fn is_blank(line: Seq<char>) -> bool {
    line_body(line).len() == 0
}

/// Whether a line declares a label: its first word ends with a colon.
pub open spec fn is_label_line(line: Seq<char>) -> bool {
    let first = line_words(line).first();
    !is_blank(line) && first.len() > 0 && first.last() == ':'
}

/// Whether a line is a statement: an instruction and its arguments.
pub open spec fn is_statement(line: Seq<char>) -> bool {
    !is_blank(line) && !is_label_line(line)
}

/// The label that a label line declares: its first word without colons.
pub open spec fn label_name(line: Seq<char>) -> Seq<char> {
    filtered(line_words(line).first(), CharClass::Exactly(':'), false)
}

/// What one line adds. A blank line adds nothing. A label line binds its
/// label to the index of the next token and emits none. A statement emits
/// the token of its instruction, those of its arguments and the token that
/// closes it.
pub open spec fn scan_line(known: Set<Seq<char>>, state: ScanState, line: Seq<char>) -> ScanState {
    let words = line_words(line);
    if is_blank(line) {
        state
    } else if is_label_line(line) {
        state.bind(label_name(line))
    } else {
        scan_arguments(scan_mnemonic(known, state, words.first()), words.skip(1)).emit(
            TokenView::ExprEnd,
        )
    }
}

/// What the lines add, from first to last.
pub open spec fn scan_lines(known: Set<Seq<char>>, state: ScanState, lines: Seq<Seq<char>>) -> ScanState
    decreases lines.len(),
{
    if lines.len() == 0 {
        state
    } else {
        scan_line(known, scan_lines(known, state, lines.drop_last()), lines.last())
    }
}

/// The tokens that a sequence of arguments gives, one for each word.
pub open spec fn argument_tokens(words: Seq<Seq<char>>) -> Seq<TokenView> {
    words.map_values(|word: Seq<char>| argument_token(word))
}

/// The tokens that a line gives: none for a blank line or a label line;
/// for a statement the token of its instruction, one for each argument,
/// and the token that closes it.
pub open spec fn line_tokens(line: Seq<char>) -> Seq<TokenView> {
    if is_statement(line) {
        seq![TokenView::Instruction(squeeze(line_words(line).first()))] + argument_tokens(
            line_words(line).skip(1),
        ) + seq![TokenView::ExprEnd]
    } else {
        Seq::empty()
    }
}

/// The tokens that a sequence of lines gives: those of each line, in
/// order.
pub open spec fn program_tokens(lines: Seq<Seq<char>>) -> Seq<TokenView>
    decreases lines.len(),
{
    if lines.len() == 0 {
        Seq::empty()
    } else {
        program_tokens(lines.drop_last()) + line_tokens(lines.last())
    }
}

/// How many of the lines are statements.
pub open spec fn statement_count(lines: Seq<Seq<char>>) -> nat
    decreases lines.len(),
{
    if lines.len() == 0 {
        0
    } else {
        statement_count(lines.drop_last()) + if is_statement(lines.last()) {
            1nat
        } else {
            0nat
        }
    }
}

/// The lines of a source text.
pub open spec fn source_lines(code: Seq<char>) -> Seq<Seq<char>> {
    split(code, '\n')
}

/// What a source text adds to `state`, given the instruction names that
/// are `known`.
pub open spec fn scan_source(known: Set<Seq<char>>, state: ScanState, code: Seq<char>) -> ScanState {
    scan_lines(known, state, source_lines(code))
}

/// Whether the scanner takes a line: one that is not blank begins with a
/// word, not with a space, and the arguments of a statement are all taken.
pub open spec fn line_accepted(line: Seq<char>) -> bool {
    let words = line_words(line);
    is_blank(line) || (words.first().len() > 0 && (is_label_line(line) || forall|j: int|
        1 <= j < words.len() ==> argument_accepted(#[trigger] words[j])))
}

/// Whether the scanner takes a source text: it takes every line of it.
pub open spec fn source_accepted(code: Seq<char>) -> bool {
    forall|i: int|
        0 <= i < source_lines(code).len() ==> line_accepted(#[trigger] source_lines(code)[i])
}

/// `split` always gives at least one piece.
pub proof fn lemma_split_nonempty(s: Seq<char>, sep: char)
    ensures
        split(s, sep).len() >= 1,
    decreases s.len(),
{
    if s.len() > 0 {
        lemma_split_nonempty(s.drop_last(), sep);
    }
}

/// Decides whether the scanner takes `word` as an argument.
pub fn accepts_argument(word: &Vec<char>) -> (r: bool)
    ensures
        r == argument_accepted(word@),
{
    let w = filter_chars(word, CharClass::Whitespace, false);
    if w.len() == 0 {
        true
    } else if is_all_of(&w, CharClass::Numeric) {
        parse_decimal(&w).is_some()
    } else if is_all_of(&w, CharClass::Alphanumeric) {
        true
    } else if w[0] == '[' && w[w.len() - 1] == ']' {
        true
    } else {
        !(w[w.len() - 1] == '"' && w[0] == '"')
    }
}

/// The token of an argument that the scanner takes.
pub fn argument_node(word: &Vec<char>) -> (node: ASTNode)
    requires
        argument_accepted(word@),
    ensures
        node@ == argument_token(word@),
{
    let w = filter_chars(word, CharClass::Whitespace, false);
    if w.len() == 0 {
        ASTNode::ASTExprEnd
    } else if is_all_of(&w, CharClass::Numeric) {
        let n: i32 = parse_decimal(&w).unwrap();
        ASTNode::ASTValue(ASMValue::new_int(n))
    } else if is_all_of(&w, CharClass::Alphanumeric) {
        ASTNode::ASTValue(ASMValue::new_label(from_chars(&w)))
    } else if w[0] == '[' && w[w.len() - 1] == ']' {
        let name = filter_chars(&w, CharClass::Alphanumeric, true);
        ASTNode::ASTRegister(from_chars(&name))
    } else {
        ASTNode::ASTExprEnd
    }
}

/// Decides whether the scanner takes a line.
pub fn accepts_line(line: &Vec<char>) -> (r: bool)
    ensures
        r == line_accepted(line@),
{
    let stripped = strip_comment_chars(line);
    let body = trim_end_chars(&stripped);
    if body.len() == 0 {
        return true;
    }
    let words = split_chars(&body, ' ');
    proof {
        lemma_split_nonempty(body@, ' ');
    }
    let first = &words[0];
    if first.len() == 0 {
        return false;
    }
    if first[first.len() - 1] == ':' {
        return true;
    }
    let mut j: usize = 1;
    while j < words.len()
        invariant
            1 <= j <= words.len(),
            views(words@) == line_words(line@),
            !is_blank(line@),
            !is_label_line(line@),
            line_words(line@).first().len() > 0,
            forall|k: int| 1 <= k < j ==> argument_accepted(#[trigger] line_words(line@)[k]),
        decreases words.len() - j,
    {
        if !accepts_argument(&words[j]) {
            assert(!argument_accepted(line_words(line@)[j as int]));
            return false;
        }
        j = j + 1;
    }
    true
}

/// Decides whether the scanner takes a source text.
pub fn accepts_source(code: &str) -> (r: bool)
    ensures
        r == source_accepted(code@),
{
    let chars = to_chars(code);
    let lines = split_chars(&chars, '\n');
    let mut i: usize = 0;
    while i < lines.len()
        invariant
            i <= lines.len(),
            views(lines@) == source_lines(code@),
            forall|k: int| 0 <= k < i ==> line_accepted(#[trigger] source_lines(code@)[k]),
        decreases lines.len() - i,
    {
        if !accepts_line(&lines[i]) {
            assert(!line_accepted(source_lines(code@)[i as int]));
            return false;
        }
        i = i + 1;
    }
    true
}

/// Reads a word of decimal digits as an `i32`, where it is one.
pub fn parse_decimal(word: &Vec<char>) -> (r: Option<i32>)
    ensures
        r is Some <==> is_decimal_i32(word@),
        r matches Some(n) ==> n == decimal_value(word@),
{
    if word.len() == 0 {
        return None;
    }
    let mut value: i32 = 0;
    let mut i: usize = 0;
    assert(word@.take(0) == Seq::<char>::empty());
    while i < word.len()
        invariant
            i <= word.len(),
            forall|j: int| 0 <= j < i ==> is_digit(#[trigger] word@[j]),
            value == decimal_value(word@.take(i as int)),
            0 <= value,
        decreases word.len() - i,
    {
        let c = word[i];
        if !('0' <= c && c <= '9') {
            return None;
        }
        let d: i32 = (c as u32 - '0' as u32) as i32;
        proof {
            assert(word@.take(i + 1).drop_last() == word@.take(i as int));
            if forall|j: int| 0 <= j < word@.len() ==> is_digit(#[trigger] word@[j]) {
                lemma_decimal_value_grows(word@, i + 1);
            }
        }
        if value > (i32::MAX - d) / 10 {
            return None;
        }
        value = value * 10 + d;
        i = i + 1;
    }
    assert(word@.take(word.len() as int) == word@);
    Some(value)
}

/// The value of a prefix of digits is at most the value of the whole.
pub proof fn lemma_decimal_value_grows(digits: Seq<char>, n: int)
    requires
        0 <= n <= digits.len(),
        forall|j: int| 0 <= j < digits.len() ==> is_digit(#[trigger] digits[j]),
    ensures
        0 <= decimal_value(digits.take(n)) <= decimal_value(digits),
    decreases digits.len() - n,
{
    lemma_decimal_value_nonnegative(digits.take(n));
    if n == digits.len() {
        assert(digits.take(n) == digits);
    } else {
        lemma_decimal_value_grows(digits, n + 1);
        assert(digits.take(n + 1).drop_last() == digits.take(n));
    }
}

/// Digits write a number that is not negative.
pub proof fn lemma_decimal_value_nonnegative(digits: Seq<char>)
    requires
        forall|j: int| 0 <= j < digits.len() ==> is_digit(#[trigger] digits[j]),
    ensures
        0 <= decimal_value(digits),
    decreases digits.len(),
{
    if digits.len() > 0 {
        lemma_decimal_value_nonnegative(digits.drop_last());
    }
}

} // verus!
