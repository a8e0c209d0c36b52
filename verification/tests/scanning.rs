use asm_interpreter::scanner::{accepts_argument, accepts_line, accepts_source, parse_decimal};
use asm_interpreter::{ASMDefinition, ASMValue, ASTNode, Instruction};

#[derive(Clone, Copy)]
struct Noop;

impl Instruction for Noop {
    fn execute(&self, _machine: &mut ASMDefinition<Noop>, _args: Vec<ASMValue>) {}
}

fn with_set() -> ASMDefinition<Noop> {
    ASMDefinition::new().insert_register("r").insert_instruction("SET", Noop)
}

fn empty_machine() -> ASMDefinition<Noop> {
    ASMDefinition::new()
}

fn chars(s: &str) -> Vec<char> {
    s.chars().collect()
}

fn describe(token: &ASTNode) -> String {
    match token {
        ASTNode::ASTValue(ASMValue::Int(n)) => format!("int {}", n),
        ASTNode::ASTValue(ASMValue::Label(name)) => format!("label {}", name),
        ASTNode::ASTValue(ASMValue::Register(name)) => format!("regvalue {}", name),
        ASTNode::ASTValue(ASMValue::Empty) => "empty".to_string(),
        ASTNode::ASTInstruction(name) => format!("ins {}", name),
        ASTNode::ASTRegister(name) => format!("reg {}", name),
        ASTNode::ASTExprEnd => "end".to_string(),
    }
}

fn described(tokens: &[ASTNode]) -> Vec<String> {
    tokens.iter().map(describe).collect()
}

#[test]
fn statement_gives_instruction_arguments_and_terminator() {
    let mut m = with_set();
    let tokens = m.scan("SET [r] 5".to_string());
    assert_eq!(described(&tokens), vec!["ins SET", "reg r", "int 5", "end"]);
    assert_eq!(m.error_count(), 0);
    assert!(!m.is_halted());
}

#[test]
fn blank_and_comment_lines_give_no_tokens() {
    let mut m = with_set();
    let tokens = m.scan("\n   \n;; only a comment\n\t\n".to_string());
    assert!(tokens.is_empty());
    assert_eq!(m.error_count(), 0);
}

#[test]
fn comment_is_cut_off_the_end_of_a_statement() {
    let mut m = with_set();
    let tokens = m.scan("SET [r] 5 ;; five".to_string());
    assert_eq!(described(&tokens), vec!["ins SET", "reg r", "int 5", "end"]);
    assert_eq!(m.error_count(), 0);
}

#[test]
fn comment_right_after_an_argument_is_cut_off() {
    let mut m = with_set();
    let tokens = m.scan("SET [r] 5;;five".to_string());
    assert_eq!(described(&tokens), vec!["ins SET", "reg r", "int 5", "end"]);
}

#[test]
fn carriage_return_at_line_end_is_trimmed() {
    let mut m = with_set();
    let tokens = m.scan("SET [r] 5\r\nSET [r] 6\r\n".to_string());
    assert_eq!(
        described(&tokens),
        vec!["ins SET", "reg r", "int 5", "end", "ins SET", "reg r", "int 6", "end"]
    );
}

#[test]
fn label_is_bound_to_the_index_of_the_next_token() {
    let mut m = with_set();
    let tokens = m.scan("SET [r] 1\nhere:\nSET [r] 2".to_string());
    assert_eq!(tokens.len(), 8);
    assert_eq!(m.label_index("here"), Some(4));
    assert_eq!(describe(&tokens[4]), "ins SET");
}

#[test]
fn label_on_the_first_line_is_bound_to_zero() {
    let mut m = with_set();
    let tokens = m.scan("top:\nSET [r] 2".to_string());
    assert_eq!(tokens.len(), 4);
    assert_eq!(m.label_index("top"), Some(0));
}

#[test]
fn label_at_the_end_is_bound_to_the_token_count() {
    let mut m = with_set();
    let tokens = m.scan("SET [r] 2\nend:".to_string());
    assert_eq!(m.label_index("end"), Some(tokens.len()));
}

#[test]
fn consecutive_labels_share_an_index() {
    let mut m = with_set();
    m.scan("SET [r] 1\na:\nb:\n\nc:\nSET [r] 2".to_string());
    assert_eq!(m.label_index("a"), Some(4));
    assert_eq!(m.label_index("b"), Some(4));
    assert_eq!(m.label_index("c"), Some(4));
}

#[test]
fn label_line_emits_nothing_even_with_text_after_the_label() {
    let mut m = with_set();
    let tokens = m.scan("start: SET [r] 1".to_string());
    assert!(tokens.is_empty());
    assert_eq!(m.label_index("start"), Some(0));
}

#[test]
fn label_declared_twice_keeps_the_later_index() {
    let mut m = with_set();
    m.scan("x:\nSET [r] 1\nx:\nSET [r] 2".to_string());
    assert_eq!(m.label_index("x"), Some(4));
}

#[test]
fn label_name_loses_all_its_colons() {
    let mut m = with_set();
    m.scan("a:b::".to_string());
    assert_eq!(m.label_index("ab"), Some(0));
    assert_eq!(m.label_index("a:b"), None);
}

#[test]
fn lone_colon_declares_the_empty_label() {
    let mut m = with_set();
    let tokens = m.scan("SET [r] 1\n:".to_string());
    assert_eq!(tokens.len(), 4);
    assert_eq!(m.label_index(""), Some(4));
}

#[test]
fn undeclared_label_has_no_index() {
    let mut m = with_set();
    m.scan("SET [r] 1".to_string());
    assert_eq!(m.label_index("nowhere"), None);
}

#[test]
fn scanning_twice_gives_the_same_tokens_and_labels() {
    let source = "SET [r] 5\nloop:\nSET [r] 6\nend:";
    let mut m = with_set();
    let first = m.scan(source.to_string());
    let loop_once = m.label_index("loop");
    let end_once = m.label_index("end");
    let second = m.scan(source.to_string());
    assert_eq!(described(&first), described(&second));
    assert_eq!(m.label_index("loop"), loop_once);
    assert_eq!(m.label_index("end"), end_once);
    assert_eq!(loop_once, Some(4));
    assert_eq!(end_once, Some(8));
}

#[test]
fn unknown_instruction_is_one_error_and_the_scan_goes_on() {
    let mut m = empty_machine();
    let tokens = m.scan("FOO 1 x\nBAR [r]".to_string());
    assert_eq!(
        described(&tokens),
        vec!["ins FOO", "int 1", "label x", "end", "ins BAR", "reg r", "end"]
    );
    assert_eq!(m.error_count(), 2);
    assert_eq!(
        m.diagnostics(),
        vec!["FOO is an unknown instruction".to_string(), "BAR is an unknown instruction".to_string()]
    );
    assert!(m.is_halted());
}

#[test]
fn each_statement_without_instructions_raises_exactly_one_error() {
    let mut m = empty_machine();
    let before = m.error_count();
    m.scan("A".to_string());
    assert_eq!(m.error_count(), before + 1);
    m.scan("B 1 2 3".to_string());
    assert_eq!(m.error_count(), before + 2);
    m.scan("lab:\n\n;; nothing".to_string());
    assert_eq!(m.error_count(), before + 2);
}

#[test]
fn known_instruction_raises_no_error() {
    let mut m = with_set();
    let node = m.match_instruction("SET".to_string());
    assert_eq!(describe(&node), "ins SET");
    assert_eq!(m.error_count(), 0);
    assert!(!m.is_halted());
}

#[test]
fn instruction_name_loses_its_white_space() {
    let mut m = with_set();
    let node = m.match_instruction("S\tE\u{00A0}T".to_string());
    assert_eq!(describe(&node), "ins SET");
    assert_eq!(m.error_count(), 0);
}

#[test]
fn unknown_instruction_message_names_the_instruction() {
    let mut m = with_set();
    let node = m.match_instruction("MUL".to_string());
    assert_eq!(describe(&node), "ins MUL");
    assert_eq!(m.diagnostics(), vec!["MUL is an unknown instruction".to_string()]);
    assert!(m.is_halted());
}

#[test]
fn digits_give_an_integer() {
    let mut m = with_set();
    assert_eq!(describe(&m.match_argument("42".to_string())), "int 42");
    assert_eq!(describe(&m.match_argument("007".to_string())), "int 7");
    assert_eq!(describe(&m.match_argument("0".to_string())), "int 0");
    assert_eq!(describe(&m.match_argument("2147483647".to_string())), "int 2147483647");
    assert_eq!(m.error_count(), 0);
}

#[test]
fn letters_and_digits_give_a_label() {
    let mut m = with_set();
    assert_eq!(describe(&m.match_argument("loop".to_string())), "label loop");
    assert_eq!(describe(&m.match_argument("x1".to_string())), "label x1");
    assert_eq!(describe(&m.match_argument("1x".to_string())), "label 1x");
    assert_eq!(describe(&m.match_argument("caf\u{e9}".to_string())), "label caf\u{e9}");
    assert_eq!(m.error_count(), 0);
}

#[test]
fn brackets_give_a_register_named_by_letters_and_digits() {
    let mut m = with_set();
    assert_eq!(describe(&m.match_argument("[r]".to_string())), "reg r");
    assert_eq!(describe(&m.match_argument("[a-b_1]".to_string())), "reg ab1");
    assert_eq!(describe(&m.match_argument("[]".to_string())), "reg ");
    assert_eq!(describe(&m.match_argument("[[x]]".to_string())), "reg x");
    assert_eq!(m.error_count(), 0);
}

#[test]
fn register_need_not_be_declared_to_be_scanned() {
    let mut m = with_set();
    assert_eq!(describe(&m.match_argument("[unknown]".to_string())), "reg unknown");
    assert_eq!(m.error_count(), 0);
}

#[test]
fn malformed_argument_gives_a_terminator_and_no_error() {
    let mut m = with_set();
    assert_eq!(describe(&m.match_argument("@#$".to_string())), "end");
    assert_eq!(describe(&m.match_argument("a-b".to_string())), "end");
    assert_eq!(describe(&m.match_argument("[r".to_string())), "end");
    assert_eq!(describe(&m.match_argument("r]".to_string())), "end");
    assert_eq!(describe(&m.match_argument("-5".to_string())), "end");
    assert_eq!(describe(&m.match_argument("\"open".to_string())), "end");
    assert_eq!(m.error_count(), 0);
    assert!(!m.is_halted());
}

#[test]
fn malformed_argument_cuts_the_statement_in_two() {
    let mut m = with_set();
    let tokens = m.scan("SET @#$ 5".to_string());
    assert_eq!(described(&tokens), vec!["ins SET", "end", "int 5", "end"]);
    assert_eq!(m.error_count(), 0);
}

#[test]
fn empty_argument_is_an_error_and_a_terminator() {
    let mut m = with_set();
    let node = m.match_argument("".to_string());
    assert_eq!(describe(&node), "end");
    assert_eq!(m.diagnostics(), vec!["Empty argument!".to_string()]);
    assert!(m.is_halted());
}

#[test]
fn argument_of_white_space_only_is_empty() {
    let mut m = with_set();
    let node = m.match_argument("\t\u{3000}".to_string());
    assert_eq!(describe(&node), "end");
    assert_eq!(m.diagnostics(), vec!["Empty argument!".to_string()]);
}

#[test]
fn two_spaces_between_arguments_make_an_empty_argument() {
    let mut m = with_set();
    let tokens = m.scan("SET [r]  5".to_string());
    assert_eq!(described(&tokens), vec!["ins SET", "reg r", "end", "int 5", "end"]);
    assert_eq!(m.diagnostics(), vec!["Empty argument!".to_string()]);
    assert!(m.is_halted());
}

#[test]
fn unknown_instruction_with_an_empty_argument_raises_two_errors() {
    let mut m = empty_machine();
    m.scan("FOO  1".to_string());
    assert_eq!(
        m.diagnostics(),
        vec!["FOO is an unknown instruction".to_string(), "Empty argument!".to_string()]
    );
}

#[test]
fn white_space_inside_an_argument_is_ignored() {
    let mut m = with_set();
    assert_eq!(describe(&m.match_argument("4\t2".to_string())), "int 42");
    assert_eq!(describe(&m.match_argument("[\tr\t]".to_string())), "reg r");
}

#[test]
fn scan_leaves_registers_and_cursor_alone() {
    let mut m = with_set();
    assert!(m.set_register("r", ASMValue::Int(3)));
    m.jump(5);
    m.scan("SET [r] 9\nx:".to_string());
    assert!(matches!(m.get_register("r"), Some(ASMValue::Int(3))));
    assert_eq!(m.position(), Some(4));
    assert!(m.has_instruction("SET"));
}

#[test]
fn accepted_sources() {
    assert!(accepts_source(""));
    assert!(accepts_source("SET [r] 5\nJMP label\nlabel:\nADD [r] [r]"));
    assert!(accepts_source("FOO @#$  x ;; odd but taken"));
    assert!(accepts_source("\n\n;;\n   \n"));
    assert!(accepts_source("SET 2147483647"));
    assert!(accepts_source("SET \"open"));
    assert!(accepts_source("lab: \"quoted\" 99999999999"));
}

#[test]
fn source_with_a_number_too_large_is_not_accepted() {
    assert!(!accepts_source("SET [r] 2147483648"));
    assert!(!accepts_source("SET [r] 99999999999999999999"));
}

#[test]
fn source_with_digits_that_are_not_decimal_is_not_accepted() {
    assert!(!accepts_source("SET [r] \u{0663}"));
    assert!(!accepts_source("SET [r] \u{00B2}"));
}

#[test]
fn source_with_quoted_text_is_not_accepted() {
    assert!(!accepts_source("SET [r] \"text\""));
    assert!(!accepts_source("SET \""));
}

#[test]
fn source_with_a_line_that_begins_with_a_space_is_not_accepted() {
    assert!(!accepts_source(" SET [r] 5"));
    assert!(!accepts_source("SET [r] 5\n  x:"));
}

#[test]
fn line_and_argument_acceptance() {
    assert!(accepts_line(&chars("SET [r] 5")));
    assert!(accepts_line(&chars("")));
    assert!(accepts_line(&chars("   ")));
    assert!(accepts_line(&chars(";; \"quoted\" in a comment")));
    assert!(!accepts_line(&chars(" SET")));
    assert!(!accepts_line(&chars("SET \"s\"")));
    assert!(accepts_argument(&chars("")));
    assert!(accepts_argument(&chars("12")));
    assert!(accepts_argument(&chars("[r]")));
    assert!(accepts_argument(&chars("@")));
    assert!(!accepts_argument(&chars("\"\"")));
    assert!(!accepts_argument(&chars("4294967296")));
}

#[test]
fn decimal_numbers() {
    assert_eq!(parse_decimal(&chars("0")), Some(0));
    assert_eq!(parse_decimal(&chars("12345")), Some(12345));
    assert_eq!(parse_decimal(&chars("0000000000000012")), Some(12));
    assert_eq!(parse_decimal(&chars("2147483647")), Some(i32::MAX));
    assert_eq!(parse_decimal(&chars("2147483648")), None);
    assert_eq!(parse_decimal(&chars("12a")), None);
    assert_eq!(parse_decimal(&chars("-1")), None);
    assert_eq!(parse_decimal(&chars("\u{0663}")), None);
    assert_eq!(parse_decimal(&chars("")), None);
}

#[test]
fn try_scan_refuses_what_the_scanner_does_not_take() {
    let mut m = with_set();
    assert!(m.try_scan("SET [r] \"text\"\nlab:".to_string()).is_none());
    assert_eq!(m.error_count(), 0);
    assert_eq!(m.label_index("lab"), None);
    assert!(!m.is_halted());
}

#[test]
fn try_scan_scans_what_the_scanner_takes() {
    let mut m = with_set();
    let tokens = m.try_scan("SET [r] 5\nlab:".to_string()).expect("accepted");
    assert_eq!(described(&tokens), vec!["ins SET", "reg r", "int 5", "end"]);
    assert_eq!(m.label_index("lab"), Some(4));
}

#[test]
fn decimal_numbers_agree_with_the_standard_parser() {
    let words = [
        "0", "1", "9", "10", "42", "007", "2147483646", "2147483647", "2147483648", "2147483650",
        "4294967296", "99999999999999999999", "000000000000000000002147483647", "\u{0663}",
        "1\u{0663}", "\u{00B2}", "12\u{0662}",
    ];
    for word in words.iter() {
        assert!(word.chars().all(|c| c.is_numeric()));
        assert_eq!(parse_decimal(&chars(word)), word.parse::<i32>().ok(), "{:?}", word);
    }
}
