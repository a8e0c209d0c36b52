//! What holds of scanning and running, whatever the program: the laws that
//! the contracts of the machine rest on, each with its proof.

use crate::asm_definition::{Instruction, TokenView};
use crate::asm_value::ValueView;
use crate::scanner::{
    argument_accepted, argument_token, argument_tokens, is_bracketed, is_label_line, is_quoted,
    is_statement, label_name, lemma_split_nonempty, line_body, line_tokens, line_words,
    program_tokens, scan_argument, scan_arguments, scan_line, scan_lines, scan_mnemonic,
    source_lines, squeeze, statement_count, unknown_instruction_message, ScanState,
};
use crate::semantics::{
    invalid_destination_message, invalid_label_message, one_step, runs_out, runs_to, stopped,
    Config, MachineView, PendingView,
};
use crate::text::{
    all_of, char_is_whitespace, comment_start, join, split, strip_comment, trim_end, CharClass,
};
use vstd::prelude::*;

verus! {

/// Splitting loses nothing and leaves no separator behind: the pieces,
/// joined by the separator, are the sequence that was split, and no piece
/// holds the separator.
pub proof fn lemma_split_join(s: Seq<char>, sep: char)
    ensures
        split(s, sep).len() >= 1,
        join(split(s, sep), sep) == s,
        forall|i: int| 0 <= i < split(s, sep).len() ==> !(#[trigger] split(s, sep)[i]).contains(sep),
    decreases s.len(),
{
    if s.len() > 0 {
        let before = split(s.drop_last(), sep);
        lemma_split_join(s.drop_last(), sep);
        let pieces = split(s, sep);
        if s.last() == sep {
            assert(pieces.drop_last() == before);
            assert(join(pieces, sep) == s);
            assert forall|i: int| 0 <= i < pieces.len() implies !(#[trigger] pieces[i]).contains(
                sep,
            ) by {
                if i < before.len() {
                    assert(!before[i].contains(sep));
                }
            }
        } else {
            let grown = before.last().push(s.last());
            assert(pieces.drop_last() == before.drop_last());
            assert(pieces.last() == grown);
            if before.len() == 1 {
                assert(join(pieces, sep) == s);
            } else {
                assert(join(pieces, sep) == join(before.drop_last(), sep).push(sep) + grown);
                assert(join(before, sep) == join(before.drop_last(), sep).push(sep)
                    + before.last());
                assert(join(pieces, sep) == join(before, sep).push(s.last()));
                assert(join(pieces, sep) == s);
            }
            assert forall|i: int| 0 <= i < pieces.len() implies !(#[trigger] pieces[i]).contains(
                sep,
            ) by {
                if i < before.len() - 1 {
                    assert(!before[i].contains(sep));
                } else {
                    assert(!before[before.len() - 1].contains(sep));
                    if grown.contains(sep) {
                        let k = choose|k: int| 0 <= k < grown.len() && grown[k] == sep;
                        if k < before.last().len() {
                            assert(before.last()[k] == sep);
                        }
                    }
                }
            }
        }
    } else {
        assert(join(split(s, sep), sep) == s);
    }
}

/// Trimming cuts only white space off the end, and all of it: what is left
/// is the beginning of the sequence, it does not end with white space, and
/// everything after it is white space.
pub proof fn lemma_trim_end(s: Seq<char>)
    ensures
        trim_end(s).len() <= s.len(),
        trim_end(s) == s.take(trim_end(s).len() as int),
        trim_end(s).len() > 0 ==> !char_is_whitespace(trim_end(s).last()),
        forall|i: int| trim_end(s).len() <= i < s.len() ==> char_is_whitespace(#[trigger] s[i]),
    decreases s.len(),
{
    if s.len() > 0 && char_is_whitespace(s.last()) {
        lemma_trim_end(s.drop_last());
        assert(s.drop_last().take(trim_end(s).len() as int) == s.take(trim_end(s).len() as int));
        assert forall|i: int| trim_end(s).len() <= i < s.len() implies char_is_whitespace(
            #[trigger] s[i],
        ) by {
            if i < s.len() - 1 {
                assert(s.drop_last()[i] == s[i]);
            }
        }
    } else {
        assert(s.take(s.len() as int) == s);
    }
}

/// The comment starts at the first `;;` at or after `from`: no `;;` begins
/// between `from` and the index found, and one begins there unless the
/// index is the length of the sequence.
pub proof fn lemma_comment_start(s: Seq<char>, from: int)
    requires
        0 <= from <= s.len(),
    ensures
        from <= comment_start(s, from) <= s.len(),
        forall|i: int|
            from <= i < comment_start(s, from) && i + 1 < s.len() ==> !(#[trigger] s[i] == ';'
                && s[i + 1] == ';'),
        comment_start(s, from) < s.len() ==> comment_start(s, from) + 1 < s.len()
            && s[comment_start(s, from)] == ';' && s[comment_start(s, from) + 1] == ';',
    decreases s.len() - from,
{
    if from + 1 < s.len() && !(s[from] == ';' && s[from + 1] == ';') {
        lemma_comment_start(s, from + 1);
    }
}

/// What is left of a line without its comment holds no `;;`, and is the
/// whole line where the line holds none.
pub proof fn lemma_strip_comment(s: Seq<char>)
    ensures
        strip_comment(s).len() <= s.len(),
        strip_comment(s) == s.take(strip_comment(s).len() as int),
        forall|i: int|
            0 <= i && i + 1 < strip_comment(s).len() ==> !(#[trigger] strip_comment(s)[i] == ';'
                && strip_comment(s)[i + 1] == ';'),
        (forall|i: int| 0 <= i && i + 1 < s.len() ==> !(#[trigger] s[i] == ';' && s[i + 1] == ';'))
            ==> strip_comment(s) == s,
{
    lemma_comment_start(s, 0);
    let n = comment_start(s, 0);
    if n < s.len() {
        assert(s[n] == ';' && s[n + 1] == ';');
    } else {
        assert(s.take(n) == s);
    }
    assert forall|i: int| 0 <= i && i + 1 < strip_comment(s).len() implies !(
    #[trigger] strip_comment(s)[i] == ';' && strip_comment(s)[i + 1] == ';') by {
        assert(strip_comment(s)[i] == s[i]);
        assert(strip_comment(s)[i + 1] == s[i + 1]);
    }
}

/// The arguments of a statement add one token each, in order, and bind no
/// label.
pub proof fn lemma_arguments_tokens(state: ScanState, words: Seq<Seq<char>>)
    ensures
        scan_arguments(state, words).tokens == state.tokens + argument_tokens(words),
        scan_arguments(state, words).labels == state.labels,
    decreases words.len(),
{
    if words.len() > 0 {
        lemma_arguments_tokens(state, words.drop_last());
        assert(argument_tokens(words) == argument_tokens(words.drop_last()).push(
            argument_token(words.last()),
        ));
    }
    assert(scan_arguments(state, words).tokens == state.tokens + argument_tokens(words));
}

/// Arguments of which none is empty raise no error.
pub proof fn lemma_arguments_raise_nothing(state: ScanState, words: Seq<Seq<char>>)
    requires
        forall|j: int| 0 <= j < words.len() ==> squeeze(#[trigger] words[j]).len() > 0,
    ensures
        scan_arguments(state, words).diagnostics == state.diagnostics,
        scan_arguments(state, words).halted == state.halted,
    decreases words.len(),
{
    if words.len() > 0 {
        lemma_arguments_raise_nothing(state, words.drop_last());
        assert(squeeze(words[words.len() - 1]).len() > 0);
    }
}

/// A line adds the tokens that are its own, whatever the state of the
/// scan, and only a label line binds a label: to the number of tokens
/// emitted before it.
pub proof fn lemma_line_tokens(known: Set<Seq<char>>, state: ScanState, line: Seq<char>)
    ensures
        scan_line(known, state, line).tokens == state.tokens + line_tokens(line),
        scan_line(known, state, line).labels == if is_label_line(line) {
            state.labels.insert(label_name(line), state.tokens.len() as usize)
        } else {
            state.labels
        },
{
    if is_statement(line) {
        let opened = scan_mnemonic(known, state, line_words(line).first());
        lemma_arguments_tokens(opened, line_words(line).skip(1));
        assert(scan_line(known, state, line).tokens == state.tokens + line_tokens(line));
    } else {
        assert(scan_line(known, state, line).tokens == state.tokens + line_tokens(line));
    }
}

/// The tokens of a program do not depend on the machine: they are the
/// tokens of its lines, in order.
pub proof fn lemma_program_tokens(known: Set<Seq<char>>, state: ScanState, lines: Seq<Seq<char>>)
    ensures
        scan_lines(known, state, lines).tokens == state.tokens + program_tokens(lines),
    decreases lines.len(),
{
    if lines.len() > 0 {
        let before = scan_lines(known, state, lines.drop_last());
        lemma_program_tokens(known, state, lines.drop_last());
        lemma_line_tokens(known, before, lines.last());
    }
    assert(scan_lines(known, state, lines).tokens == state.tokens + program_tokens(lines));
}

/// Scanning a program is scanning its first `i` lines and then the rest.
pub proof fn lemma_scan_in_two(
    known: Set<Seq<char>>,
    state: ScanState,
    lines: Seq<Seq<char>>,
    i: int,
)
    requires
        0 <= i <= lines.len(),
    ensures
        scan_lines(known, state, lines) == scan_lines(
            known,
            scan_lines(known, state, lines.take(i)),
            lines.skip(i),
        ),
    decreases lines.len(),
{
    if i == lines.len() {
        assert(lines.take(i) == lines);
        assert(lines.skip(i) == Seq::<Seq<char>>::empty());
    } else {
        lemma_scan_in_two(known, state, lines.drop_last(), i);
        assert(lines.drop_last().take(i) == lines.take(i));
        assert(lines.drop_last().skip(i) == lines.skip(i).drop_last());
        assert(lines.skip(i).last() == lines.last());
    }
}

/// Lines that do not declare the label `name` leave its binding alone.
pub proof fn lemma_label_kept(
    known: Set<Seq<char>>,
    state: ScanState,
    lines: Seq<Seq<char>>,
    name: Seq<char>,
)
    requires
        forall|j: int|
            0 <= j < lines.len() && is_label_line(#[trigger] lines[j]) ==> label_name(lines[j])
                != name,
    ensures
        scan_lines(known, state, lines).labels.contains_key(name) == state.labels.contains_key(
            name,
        ),
        scan_lines(known, state, lines).labels[name] == state.labels[name],
    decreases lines.len(),
{
    if lines.len() > 0 {
        let before = scan_lines(known, state, lines.drop_last());
        assert(forall|j: int|
            0 <= j < lines.drop_last().len() ==> #[trigger] lines.drop_last()[j] == lines[j]);
        lemma_label_kept(known, state, lines.drop_last(), name);
        lemma_line_tokens(known, before, lines.last());
        assert(lines.last() == lines[lines.len() - 1]);
    }
}

/// Lines of which none is a statement add no token.
pub proof fn lemma_no_statement_no_token(lines: Seq<Seq<char>>)
    requires
        forall|j: int| 0 <= j < lines.len() ==> !is_statement(#[trigger] lines[j]),
    ensures
        program_tokens(lines) == Seq::<TokenView>::empty(),
    decreases lines.len(),
{
    if lines.len() > 0 {
        assert(forall|j: int|
            0 <= j < lines.drop_last().len() ==> #[trigger] lines.drop_last()[j] == lines[j]);
        lemma_no_statement_no_token(lines.drop_last());
        assert(!is_statement(lines[lines.len() - 1]));
    }
}

/// The tokens of a program are those of its first `i` lines and then those
/// of the rest.
pub proof fn lemma_program_tokens_in_two(lines: Seq<Seq<char>>, i: int)
    requires
        0 <= i <= lines.len(),
    ensures
        program_tokens(lines) == program_tokens(lines.take(i)) + program_tokens(lines.skip(i)),
    decreases lines.len(),
{
    if i == lines.len() {
        assert(lines.take(i) == lines);
        assert(lines.skip(i) == Seq::<Seq<char>>::empty());
        assert(program_tokens(lines) == program_tokens(lines) + Seq::<TokenView>::empty());
    } else {
        lemma_program_tokens_in_two(lines.drop_last(), i);
        assert(lines.drop_last().take(i) == lines.take(i));
        assert(lines.drop_last().skip(i) == lines.skip(i).drop_last());
        assert(lines.skip(i).last() == lines.last());
        assert(program_tokens(lines) == program_tokens(lines.take(i)) + program_tokens(
            lines.skip(i),
        ));
    }
}

/// A label stands for the number of tokens emitted before its line, as
/// long as no later line declares it again.
pub proof fn lemma_label_index(
    known: Set<Seq<char>>,
    state: ScanState,
    lines: Seq<Seq<char>>,
    i: int,
)
    requires
        0 <= i < lines.len(),
        is_label_line(lines[i]),
        forall|j: int|
            i < j < lines.len() && is_label_line(#[trigger] lines[j]) ==> label_name(lines[j])
                != label_name(lines[i]),
    ensures
        scan_lines(known, state, lines).labels.contains_key(label_name(lines[i])),
        scan_lines(known, state, lines).labels[label_name(lines[i])] == (state.tokens.len()
            + program_tokens(lines.take(i)).len()) as usize,
{
    let name = label_name(lines[i]);
    let before = scan_lines(known, state, lines.take(i));
    let bound = scan_lines(known, state, lines.take(i + 1));
    assert(lines.take(i + 1).drop_last() == lines.take(i));
    assert(lines.take(i + 1).last() == lines[i]);
    lemma_line_tokens(known, before, lines[i]);
    lemma_program_tokens(known, state, lines.take(i));
    lemma_scan_in_two(known, state, lines, i + 1);
    assert(forall|j: int|
        0 <= j < lines.skip(i + 1).len() ==> #[trigger] lines.skip(i + 1)[j] == lines[j + i + 1]);
    lemma_label_kept(known, bound, lines.skip(i + 1), name);
}

/// Where no line from `i` up to the statement at `j` is a statement, the
/// tokens of the program are those of the lines before `i`, then those of
/// the statement, then those of the lines after it.
pub proof fn lemma_tokens_up_to_statement(lines: Seq<Seq<char>>, i: int, j: int)
    requires
        0 <= i <= j < lines.len(),
        forall|k: int| i <= k < j ==> !is_statement(#[trigger] lines[k]),
    ensures
        program_tokens(lines) == program_tokens(lines.take(i)) + line_tokens(lines[j])
            + program_tokens(lines.skip(j + 1)),
{
    let upto = lines.take(j);
    let between = upto.skip(i);
    assert(program_tokens(between) == Seq::<TokenView>::empty()) by {
        assert forall|k: int| 0 <= k < between.len() implies !is_statement(
            #[trigger] between[k],
        ) by {
            assert(between[k] == lines[k + i]);
        }
        lemma_no_statement_no_token(between);
    }
    assert(program_tokens(upto) == program_tokens(lines.take(i))) by {
        lemma_program_tokens_in_two(upto, i);
        assert(upto.take(i) == lines.take(i));
        assert(program_tokens(lines.take(i)) + Seq::<TokenView>::empty() == program_tokens(
            lines.take(i),
        ));
    }
    assert(program_tokens(lines.take(j + 1)) == program_tokens(upto) + line_tokens(lines[j])) by {
        assert(lines.take(j + 1).drop_last() == upto);
        assert(lines.take(j + 1).last() == lines[j]);
    }
    lemma_program_tokens_in_two(lines, j + 1);
}

/// The token that a label stands for is the first token of the statement
/// that follows its line: the name of that statement's instruction.
pub proof fn lemma_label_points_at_statement(
    known: Set<Seq<char>>,
    state: ScanState,
    lines: Seq<Seq<char>>,
    i: int,
    j: int,
)
    requires
        0 <= i < j < lines.len(),
        is_label_line(lines[i]),
        forall|k: int|
            i < k < lines.len() && is_label_line(#[trigger] lines[k]) ==> label_name(lines[k])
                != label_name(lines[i]),
        is_statement(lines[j]),
        forall|k: int| i < k < j ==> !is_statement(#[trigger] lines[k]),
        state.tokens.len() + program_tokens(lines).len() <= usize::MAX,
    ensures
        ({
            let end = scan_lines(known, state, lines);
            let index = end.labels[label_name(lines[i])] as int;
            &&& 0 <= index < end.tokens.len()
            &&& end.tokens[index] == TokenView::Instruction(squeeze(line_words(lines[j]).first()))
        }),
{
    let end = scan_lines(known, state, lines);
    let before = program_tokens(lines.take(i));
    let statement = line_tokens(lines[j]);
    let after = program_tokens(lines.skip(j + 1));
    let place = state.tokens.len() + before.len();
    lemma_label_index(known, state, lines, i);
    lemma_program_tokens(known, state, lines);
    lemma_tokens_up_to_statement(lines, i, j);
    assert(statement.len() >= 2);
    assert(statement[0] == TokenView::Instruction(squeeze(line_words(lines[j]).first())));
    assert(end.tokens == state.tokens + (before + statement + after));
    assert(end.tokens.len() == place + statement.len() + after.len());
    assert(end.tokens[place as int] == statement[0]);
    assert(end.labels[label_name(lines[i])] == place);
}

/// A statement whose instruction is not known raises exactly one error,
/// which names the instruction, and is scanned to its end all the same:
/// every word gives its token and the statement is closed. This is so
/// where no argument is empty; an empty argument is an error of its own.
pub proof fn lemma_unknown_instruction_once(
    known: Set<Seq<char>>,
    state: ScanState,
    line: Seq<char>,
)
    requires
        is_statement(line),
        !known.contains(squeeze(line_words(line).first())),
        forall|j: int|
            1 <= j < line_words(line).len() ==> squeeze(#[trigger] line_words(line)[j]).len() > 0,
    ensures
        scan_line(known, state, line).diagnostics == state.diagnostics.push(
            unknown_instruction_message(squeeze(line_words(line).first())),
        ),
        scan_line(known, state, line).tokens == state.tokens + line_tokens(line),
        line_tokens(line).len() == line_words(line).len() + 1,
        line_tokens(line).last() == TokenView::ExprEnd,
{
    let words = line_words(line);
    let opened = scan_mnemonic(known, state, words.first());
    lemma_split_nonempty(line_body(line), ' ');
    assert(forall|j: int|
        0 <= j < words.skip(1).len() ==> #[trigger] words.skip(1)[j] == words[j + 1]);
    lemma_arguments_raise_nothing(opened, words.skip(1));
    lemma_line_tokens(known, state, line);
}

/// With no instruction registered, every statement raises exactly one
/// error, for its unknown instruction, as long as none of its arguments
/// is empty.
pub proof fn lemma_no_instruction_one_error(state: ScanState, line: Seq<char>)
    requires
        is_statement(line),
        forall|j: int|
            1 <= j < line_words(line).len() ==> squeeze(#[trigger] line_words(line)[j]).len() > 0,
    ensures
        scan_line(Set::empty(), state, line).diagnostics.len() == state.diagnostics.len() + 1,
        scan_line(Set::empty(), state, line).diagnostics.last() == unknown_instruction_message(
            squeeze(line_words(line).first()),
        ),
        scan_line(Set::empty(), state, line).tokens.len() == state.tokens.len() + line_words(
            line,
        ).len() + 1,
{
    lemma_unknown_instruction_once(Set::empty(), state, line);
}

/// A program whose instructions are all known, and whose arguments are
/// never empty, is scanned without an error: the diagnostics and the halt
/// flag stay as they were.
pub proof fn lemma_known_program_scans_clean(
    known: Set<Seq<char>>,
    state: ScanState,
    lines: Seq<Seq<char>>,
)
    requires
        forall|i: int|
            0 <= i < lines.len() && is_statement(#[trigger] lines[i]) ==> known.contains(
                squeeze(line_words(lines[i]).first()),
            ),
        forall|i: int, j: int|
            0 <= i < lines.len() && is_statement(lines[i]) && 1 <= j < line_words(lines[i]).len()
                ==> squeeze(#[trigger] line_words(lines[i])[j]).len() > 0,
    ensures
        scan_lines(known, state, lines).diagnostics == state.diagnostics,
        scan_lines(known, state, lines).halted == state.halted,
    decreases lines.len(),
{
    if lines.len() > 0 {
        let before = scan_lines(known, state, lines.drop_last());
        let line = lines.last();
        assert(line == lines[lines.len() - 1]);
        assert forall|i: int|
            0 <= i < lines.drop_last().len() && is_statement(
                #[trigger] lines.drop_last()[i],
            ) implies known.contains(squeeze(line_words(lines.drop_last()[i]).first())) by {
            assert(lines.drop_last()[i] == lines[i]);
        }
        assert forall|i: int, j: int|
            0 <= i < lines.drop_last().len() && is_statement(lines.drop_last()[i]) && 1 <= j
                < line_words(lines.drop_last()[i]).len() implies squeeze(
            #[trigger] line_words(lines.drop_last()[i])[j],
        ).len() > 0 by {
            assert(lines.drop_last()[i] == lines[i]);
        }
        lemma_known_program_scans_clean(known, state, lines.drop_last());
        if is_statement(line) {
            let words = line_words(line);
            let opened = scan_mnemonic(known, before, words.first());
            assert(forall|j: int|
                0 <= j < words.skip(1).len() ==> #[trigger] words.skip(1)[j] == words[j + 1]);
            lemma_arguments_raise_nothing(opened, words.skip(1));
        }
    }
}

/// With no instruction registered, a program raises exactly one error for
/// each of its statements, and is scanned to its end all the same: this is
/// so where no argument of any statement is empty.
pub proof fn lemma_no_instruction_program(state: ScanState, lines: Seq<Seq<char>>)
    requires
        forall|i: int, j: int|
            0 <= i < lines.len() && is_statement(lines[i]) && 1 <= j < line_words(lines[i]).len()
                ==> squeeze(#[trigger] line_words(lines[i])[j]).len() > 0,
    ensures
        scan_lines(Set::empty(), state, lines).diagnostics.len() == state.diagnostics.len()
            + statement_count(lines),
        scan_lines(Set::empty(), state, lines).tokens == state.tokens + program_tokens(lines),
    decreases lines.len(),
{
    lemma_program_tokens(Set::empty(), state, lines);
    if lines.len() > 0 {
        let before = scan_lines(Set::empty(), state, lines.drop_last());
        let line = lines.last();
        assert(line == lines[lines.len() - 1]);
        assert forall|i: int, j: int|
            0 <= i < lines.drop_last().len() && is_statement(lines.drop_last()[i]) && 1 <= j
                < line_words(lines.drop_last()[i]).len() implies squeeze(
            #[trigger] line_words(lines.drop_last()[i])[j],
        ).len() > 0 by {
            assert(lines.drop_last()[i] == lines[i]);
        }
        lemma_no_instruction_program(state, lines.drop_last());
        if is_statement(line) {
            lemma_no_instruction_one_error(before, line);
        }
    }
}

/// A word that is not empty, not a number, not made of letters and
/// numbers, not in square brackets and not quoted closes the statement,
/// and no error is raised.
pub proof fn lemma_malformed_argument(state: ScanState, word: Seq<char>)
    requires
        !all_of(squeeze(word), CharClass::Numeric),
        !all_of(squeeze(word), CharClass::Alphanumeric),
        !is_bracketed(squeeze(word)),
        !is_quoted(squeeze(word)),
    ensures
        argument_accepted(word),
        argument_token(word) == TokenView::ExprEnd,
        scan_argument(state, word) == state.emit(TokenView::ExprEnd),
{
}

/// A state of the scan with `tokens` emitted and nothing else: no label,
/// no error.
pub open spec fn bare(tokens: Seq<TokenView>) -> ScanState {
    ScanState { tokens, labels: Map::empty(), diagnostics: Seq::empty(), halted: false }
}

/// The labels after a scan are those from before it, overlaid with those
/// that the program binds; and these do not depend on what was there.
pub proof fn lemma_labels_overlay(known: Set<Seq<char>>, state: ScanState, lines: Seq<Seq<char>>)
    ensures
        scan_lines(known, state, lines).labels == state.labels.union_prefer_right(
            scan_lines(known, bare(state.tokens), lines).labels,
        ),
    decreases lines.len(),
{
    let fresh = bare(state.tokens);
    if lines.len() > 0 {
        let before = scan_lines(known, state, lines.drop_last());
        let before_fresh = scan_lines(known, fresh, lines.drop_last());
        lemma_labels_overlay(known, state, lines.drop_last());
        lemma_program_tokens(known, state, lines.drop_last());
        lemma_program_tokens(known, fresh, lines.drop_last());
        lemma_line_tokens(known, before, lines.last());
        lemma_line_tokens(known, before_fresh, lines.last());
    }
    assert(scan_lines(known, state, lines).labels == state.labels.union_prefer_right(
        scan_lines(known, fresh, lines).labels,
    ));
}

/// The tokens that a machine scans a source text into are the tokens of
/// its lines: they depend on the text alone.
pub proof fn lemma_tokens_of<I>(machine: MachineView<I>, code: Seq<char>)
    ensures
        machine.tokens_of(code) == program_tokens(source_lines(code)),
{
    lemma_program_tokens(
        machine.instructions.dom(),
        machine.scan_state(Seq::empty()),
        source_lines(code),
    );
    assert(machine.tokens_of(code) == program_tokens(source_lines(code)));
}

/// Scanning is idempotent: a second scan of the same text gives the same
/// tokens and leaves every label where the first scan put it.
pub proof fn lemma_scan_twice<I>(machine: MachineView<I>, code: Seq<char>)
    ensures
        machine.after_scan(code).tokens_of(code) == machine.tokens_of(code),
        machine.after_scan(code).after_scan(code).labels == machine.after_scan(code).labels,
{
    let known = machine.instructions.dom();
    let once = machine.after_scan(code);
    lemma_tokens_of(machine, code);
    lemma_tokens_of(once, code);
    lemma_labels_overlay(known, machine.scan_state(Seq::empty()), source_lines(code));
    lemma_labels_overlay(known, once.scan_state(Seq::empty()), source_lines(code));
    assert(once.after_scan(code).labels == once.labels);
}

/// Label indices are stable: after a scan, a label stands for the number
/// of tokens that the lines before its own line give, as long as no later
/// line declares it again.
pub proof fn lemma_scanned_label<I>(machine: MachineView<I>, code: Seq<char>, i: int)
    requires
        0 <= i < source_lines(code).len(),
        is_label_line(source_lines(code)[i]),
        forall|j: int|
            i < j < source_lines(code).len() && is_label_line(#[trigger] source_lines(code)[j])
                ==> label_name(source_lines(code)[j]) != label_name(source_lines(code)[i]),
        program_tokens(source_lines(code).take(i)).len() <= usize::MAX,
    ensures
        machine.after_scan(code).labels.contains_key(label_name(source_lines(code)[i])),
        machine.after_scan(code).labels[label_name(source_lines(code)[i])] == program_tokens(
            source_lines(code).take(i),
        ).len(),
{
    lemma_label_index(
        machine.instructions.dom(),
        machine.scan_state(Seq::empty()),
        source_lines(code),
        i,
    );
}

/// A jump to the value of a label never takes place: the machine halts
/// with the error for an invalid destination.
pub proof fn lemma_jump_to_value_of_label<I>(machine: MachineView<I>, name: Seq<char>)
    ensures
        machine.jumped_to_value(ValueView::Label(name)) == machine.raised(
            invalid_destination_message(),
            true,
        ),
        machine.jumped_to_value(ValueView::Label(name)).halted,
        machine.jumped_to_value(ValueView::Label(name)).cursor == machine.cursor,
        machine.jumped_to_value(ValueView::Label(name)).diagnostics.last()
            == invalid_destination_message(),
{
}

/// A jump to the label that an integer is never takes place: the machine
/// halts with the error for an invalid label.
pub proof fn lemma_jump_to_label_of_int<I>(machine: MachineView<I>, n: i32)
    ensures
        machine.jumped_to_label(ValueView::Int(n)) == machine.raised(invalid_label_message(), true),
        machine.jumped_to_label(ValueView::Int(n)).halted,
        machine.jumped_to_label(ValueView::Int(n)).cursor == machine.cursor,
        machine.jumped_to_label(ValueView::Int(n)).diagnostics.last() == invalid_label_message(),
{
}

/// A machine that is halted, or whose cursor is outside the program,
/// processes nothing: a run from there has no step.
pub proof fn lemma_stopped_stays<I: Instruction>(
    tokens: Seq<TokenView>,
    from: Config<I>,
    steps: nat,
    to: Config<I>,
)
    requires
        stopped(tokens, from.machine),
        runs_to(tokens, from, steps, to),
    ensures
        steps == 0,
        to == from,
{
}

/// The end of a statement, met while no statement is open, is a no-op:
/// the cursor moves on, and nothing else changes.
pub proof fn lemma_idle_terminator<I: Instruction>(
    tokens: Seq<TokenView>,
    before: Config<I>,
    after: Config<I>,
)
    requires
        one_step(tokens, before, after),
        tokens[before.machine.cursor] == TokenView::ExprEnd,
        before.pending.instruction is None,
    ensures
        after.machine == before.machine.advanced(),
        after.pending == before.pending,
        after.machine.registers == before.machine.registers,
        after.machine.diagnostics == before.machine.diagnostics,
        after.machine.halted == before.machine.halted,
{
}

/// A program that is one lone end of statement runs to its end in one
/// step, changes no register and raises no error.
pub proof fn lemma_run_of_lone_terminator<I: Instruction>(
    machine: MachineView<I>,
    to: MachineView<I>,
)
    requires
        machine.cursor == 0,
        !machine.halted,
        runs_out(seq![TokenView::ExprEnd], machine, to),
    ensures
        to == machine.at(1),
        to.registers == machine.registers,
        to.error_count() == machine.error_count(),
{
    let tokens = seq![TokenView::ExprEnd];
    let from = Config { machine, pending: PendingView::idle() };
    let (steps, pending) = choose|steps: nat, pending: PendingView<I>| #[trigger]
        runs_to(tokens, from, steps, Config { machine: to, pending }) && (steps == u64::MAX
            || stopped(tokens, to));
    let end = Config { machine: to, pending };
    assert(!stopped(tokens, machine));
    assert(steps > 0);
    let next = choose|next: Config<I>| #[trigger]
        one_step(tokens, from, next) && runs_to(tokens, next, (steps - 1) as nat, end);
    lemma_idle_terminator(tokens, from, next);
    lemma_stopped_stays(tokens, next, (steps - 1) as nat, end);
}

} // verus!
