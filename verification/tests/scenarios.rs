use asm_interpreter::{ASMDefinition, ASMValue, ASTNode, Instruction};

#[derive(Clone, Copy)]
struct Callback(fn(&mut ASMDefinition<Callback>, Vec<ASMValue>));

impl Instruction for Callback {
    fn execute(&self, machine: &mut ASMDefinition<Callback>, args: Vec<ASMValue>) {
        (self.0)(machine, args)
    }
}

fn register_name(value: &ASMValue) -> String {
    match value {
        ASMValue::Register(name) => name.clone(),
        other => panic!("not a register: {:?}", other),
    }
}

fn int_of(machine: &ASMDefinition<Callback>, value: &ASMValue) -> i32 {
    match machine.read_value(value) {
        ASMValue::Int(n) => n,
        other => panic!("not an integer: {:?}", other),
    }
}

fn set(machine: &mut ASMDefinition<Callback>, args: Vec<ASMValue>) {
    let value = machine.read_value(&args[1]);
    assert!(machine.set_register(&register_name(&args[0]), value));
}

fn jmp(machine: &mut ASMDefinition<Callback>, args: Vec<ASMValue>) {
    machine.jump_to_label(args[0].clone());
}

fn add(machine: &mut ASMDefinition<Callback>, args: Vec<ASMValue>) {
    let a = int_of(machine, &args[1]);
    let b = if args.len() > 2 { int_of(machine, &args[2]) } else { int_of(machine, &args[0]) };
    assert!(machine.set_register(&register_name(&args[0]), ASMValue::Int(a + b)));
}

fn machine() -> ASMDefinition<Callback> {
    ASMDefinition::new()
        .insert_register("r")
        .insert_instruction("SET", Callback(set))
        .insert_instruction("JMP", Callback(jmp))
        .insert_instruction("ADD", Callback(add))
}

fn same_int(value: Option<ASMValue>, expected: i32) -> bool {
    matches!(value, Some(ASMValue::Int(n)) if n == expected)
}

#[test]
fn set_jump_add_round_trip() {
    let mut m = machine();
    m.interpret("SET [r] 5\nJMP label\nlabel:\nADD [r] [r]".to_string());
    assert!(same_int(m.get_register("r"), 10));
    assert!(!m.is_halted());
    assert_eq!(m.error_count(), 0);
    assert_eq!(m.label_index("label"), Some(7));
    assert_eq!(m.position(), Some(11));
}

#[test]
fn scan_of_round_trip_source_gives_eleven_tokens() {
    let mut m = machine();
    let tokens = m.scan("SET [r] 5\nJMP label\nlabel:\nADD [r] [r]".to_string());
    assert_eq!(tokens.len(), 11);
    assert!(matches!(&tokens[0], ASTNode::ASTInstruction(n) if n == "SET"));
    assert!(matches!(&tokens[1], ASTNode::ASTRegister(n) if n == "r"));
    assert!(matches!(&tokens[2], ASTNode::ASTValue(ASMValue::Int(5))));
    assert!(matches!(&tokens[3], ASTNode::ASTExprEnd));
    assert!(matches!(&tokens[4], ASTNode::ASTInstruction(n) if n == "JMP"));
    assert!(matches!(&tokens[5], ASTNode::ASTValue(ASMValue::Label(n)) if n == "label"));
    assert!(matches!(&tokens[6], ASTNode::ASTExprEnd));
    assert!(matches!(&tokens[7], ASTNode::ASTInstruction(n) if n == "ADD"));
    assert!(matches!(&tokens[10], ASTNode::ASTExprEnd));
    assert_eq!(m.label_index("label"), Some(7));
    assert_eq!(m.error_count(), 0);
}

#[test]
fn jump_skips_the_statement_before_the_label() {
    let mut m = machine();
    m.interpret("SET [r] 1\nJMP end\nSET [r] 2\nend:\nADD [r] [r]".to_string());
    assert!(same_int(m.get_register("r"), 2));
    assert_eq!(m.error_count(), 0);
}

#[test]
fn lone_terminator_changes_nothing() {
    let mut m = machine();
    m.run(vec![ASTNode::ASTExprEnd]);
    assert!(matches!(m.get_register("r"), Some(ASMValue::Empty)));
    assert_eq!(m.error_count(), 0);
    assert!(!m.is_halted());
    assert_eq!(m.position(), Some(1));
}
