use cccc::assembly::{ASMFunction, ASMProgram, AssemblyRepr, Instruction, Operand, Register};
use cccc::ast::{Block, Decl, Expr, Function, LiteralExpression, Program, Stmt};
use cccc::codegen::Codegen;
use cccc::utils::VarInt;

fn lit(v: u64) -> Option<Expr> {
    Some(Expr::Lit(LiteralExpression::Int(VarInt::Pos(v))))
}

fn position(haystack: &[u8], needle: &[u8]) -> Option<usize> {
    haystack.windows(needle.len()).position(|w| w == needle)
}

fn text_of(value: &impl AssemblyRepr) -> Vec<u8> {
    let mut out = Vec::new();
    value.generate_asm(&mut out);
    out
}

#[test]
fn a_return_with_a_value_moves_and_returns() {
    let mut instructions = vec![];
    Codegen::new().codegen_statement(&mut instructions, &Stmt::Return(lit(42)));
    assert_eq!(
        instructions,
        vec![
            Instruction::Mov { from: Operand::Imm(VarInt::Pos(42)), to: Operand::Reg(Register::EAX) },
            Instruction::Ret,
        ]
    );
}

#[test]
fn a_bare_return_only_returns() {
    let function = Function { name: b"main", body: Block(vec![Stmt::Return(None)]) };
    let code = Codegen::new().codegen_function(&function);
    assert_eq!(code, ASMFunction { name: b"main", instructions: vec![Instruction::Ret] });
}

#[test]
fn codegen_statement_appends() {
    let mut instructions = vec![Instruction::Ret];
    Codegen::new().codegen_statement(&mut instructions, &Stmt::Return(None));
    Codegen::new().codegen_statement(&mut instructions, &Stmt::Return(lit(1)));
    assert_eq!(
        instructions,
        vec![
            Instruction::Ret,
            Instruction::Ret,
            Instruction::Mov { from: Operand::Imm(VarInt::Pos(1)), to: Operand::Reg(Register::EAX) },
            Instruction::Ret,
        ]
    );
}

#[test]
fn functions_keep_the_order_of_the_declarations() {
    let program = Program {
        declarations: vec![
            Decl::Fun(Function { name: b"a", body: Block(vec![Stmt::Return(lit(1)), Stmt::Return(None)]) }),
            Decl::Fun(Function { name: b"b", body: Block(vec![]) }),
        ],
    };
    let code = Codegen::default().codegen_program(&program);
    assert_eq!(
        code,
        ASMProgram {
            functions: vec![
                ASMFunction {
                    name: b"a",
                    instructions: vec![
                        Instruction::Mov { from: Operand::Imm(VarInt::Pos(1)), to: Operand::Reg(Register::EAX) },
                        Instruction::Ret,
                        Instruction::Ret,
                    ],
                },
                ASMFunction { name: b"b", instructions: vec![] },
            ],
        }
    );
    assert_eq!(Codegen::new().codegen_program(&Program { declarations: vec![] }).functions.len(), 0);
}

#[test]
fn rendered_main_holds_label_move_and_return_in_order() {
    let program = Program {
        declarations: vec![Decl::Fun(Function { name: b"main", body: Block(vec![Stmt::Return(lit(42))]) })],
    };
    let text = Codegen::new().codegen_program(&program).to_text();
    let label = position(&text, b"main:").unwrap();
    let mov = position(&text, b"movl $42,%eax").unwrap();
    let ret = position(&text, b"ret").unwrap();
    let note = position(&text, b".section .note.GNU-stack,\"\",@progbits\n").unwrap();
    assert!(label < mov);
    assert!(mov < ret);
    assert!(ret < note);
    assert!(text.ends_with(b".section .note.GNU-stack,\"\",@progbits\n"));
}

#[test]
fn each_part_has_its_text() {
    assert_eq!(text_of(&Register::EAX), b"%eax".to_vec());
    assert_eq!(text_of(&Operand::Reg(Register::EAX)), b"%eax".to_vec());
    assert_eq!(text_of(&Operand::Imm(VarInt::Pos(7))), b"$7".to_vec());
    assert_eq!(text_of(&Operand::Imm(VarInt::Neg(-7))), b"$-7".to_vec());
    assert_eq!(text_of(&Instruction::Ret), b"ret".to_vec());
    assert_eq!(
        text_of(&Instruction::Mov { from: Operand::Imm(VarInt::Pos(0)), to: Operand::Reg(Register::EAX) }),
        b"movl $0,%eax".to_vec()
    );
    assert_eq!(
        text_of(&ASMFunction { name: b"f", instructions: vec![Instruction::Ret] }),
        b"\t.globl f\nf:\n\tret\n\n".to_vec()
    );
    assert_eq!(text_of(&ASMFunction { name: b"g", instructions: vec![] }), b"\t.globl g\ng:\n\n".to_vec());
}

#[test]
fn an_empty_program_is_the_stack_note_alone() {
    let program = ASMProgram { functions: vec![] };
    assert_eq!(program.to_text(), b".section .note.GNU-stack,\"\",@progbits\n".to_vec());
    assert_eq!(text_of(&program), program.to_text());
}

#[test]
fn generate_asm_appends_to_the_writer() {
    let mut out = b"# head\n".to_vec();
    let program = ASMProgram {
        functions: vec![
            ASMFunction { name: b"a", instructions: vec![Instruction::Ret] },
            ASMFunction { name: b"b", instructions: vec![Instruction::Ret] },
        ],
    };
    program.generate_asm(&mut out);
    assert_eq!(
        out,
        b"# head\n\t.globl a\na:\n\tret\n\n\t.globl b\nb:\n\tret\n\n.section .note.GNU-stack,\"\",@progbits\n"
            .to_vec()
    );
}
