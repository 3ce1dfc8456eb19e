//! Code generation: from the syntax tree to assembly.
use vstd::prelude::*;
use crate::assembly::{
    functions_text, instructions_text, noexecstack, program_text, ASMFunction, ASMFunctionView, ASMProgram,
    Instruction, Operand, Register,
};
use crate::ast::{Decl, DeclView, Expr, Function, FunctionView, LiteralExpression, Program, Stmt};
use crate::utils::{lit, VarInt};

verus! {

/// The instructions of one statement: a return with a value moves the value
/// into the return register and returns; a bare return only returns.
pub open spec fn stmt_code(stmt: Stmt) -> Seq<Instruction> {
    match stmt {
        Stmt::Return(Some(Expr::Lit(LiteralExpression::Int(value)))) => seq![
            Instruction::Mov { from: Operand::Imm(value), to: Operand::Reg(Register::EAX) },
            Instruction::Ret,
        ],
        Stmt::Return(None) => seq![Instruction::Ret],
    }
}

/// The instructions of the statements, one statement after the other.
pub open spec fn block_code(stmts: Seq<Stmt>) -> Seq<Instruction>
    decreases stmts.len(),
{
    if stmts.len() == 0 {
        Seq::empty()
    } else {
        block_code(stmts.drop_last()) + stmt_code(stmts.last())
    }
}

/// The assembly function of a function: its name and the code of its body.
pub open spec fn function_code(function: FunctionView) -> ASMFunctionView {
    ASMFunctionView { name: function.name, instructions: block_code(function.body) }
}

/// The assembly function of a declaration.
pub open spec fn decl_code(decl: DeclView) -> ASMFunctionView {
    match decl {
        DeclView::Fun(function) => function_code(function),
    }
}

/// One assembly function per declaration, in the order of the declarations.
pub open spec fn program_code(declarations: Seq<DeclView>) -> Seq<ASMFunctionView> {
    declarations.map_values(|d: DeclView| decl_code(d))
}

/// The code generator. It holds no state.
#[derive(Debug)]
pub struct Codegen {}

impl Default for Codegen {
    fn default() -> (r: Self) {
        Codegen {}
    }
}

impl Codegen {
    pub fn new() -> (r: Self) {
        Self {}
    }

    /// Generates one assembly function per declaration, in their order.
    pub fn codegen_program<'s>(&self, program: &Program<'s>) -> (r: ASMProgram<'s>)
        ensures
            r@ == program_code(program@),
    {
        let mut functions: Vec<ASMFunction<'s>> = Vec::new();
        let mut i: usize = 0;
        while i < program.declarations.len()
            invariant
                0 <= i <= program.declarations.len(),
                functions@.len() == i,
                forall|j: int| 0 <= j < i ==> (#[trigger] functions@[j])@ == decl_code(program.declarations@[j]@),
            decreases program.declarations.len() - i,
        {
            match &program.declarations[i] {
                Decl::Fun(fun) => {
                    let function = self.codegen_function(fun);
                    functions.push(function);
                },
            }
            i = i + 1;
        }
        let r = ASMProgram { functions };
        assert(r@ =~= program_code(program@));
        r
    }

    /// Generates the instructions of a function's statements, in their order.
    pub fn codegen_function<'s>(&self, function: &Function<'s>) -> (r: ASMFunction<'s>)
        ensures
            r@ == function_code(function@),
    {
        let mut instructions: Vec<Instruction> = Vec::new();
        let mut i: usize = 0;
        assert(function.body.0@.take(0) =~= Seq::<Stmt>::empty());
        while i < function.body.0.len()
            invariant
                0 <= i <= function.body.0.len(),
                instructions@ == block_code(function.body.0@.take(i as int)),
            decreases function.body.0.len() - i,
        {
            assert(function.body.0@.take(i + 1).drop_last() =~= function.body.0@.take(i as int));
            self.codegen_statement(&mut instructions, &function.body.0[i]);
            i = i + 1;
        }
        assert(function.body.0@.take(i as int) =~= function.body.0@);
        ASMFunction { name: function.name, instructions }
    }

    /// Appends the instructions of one statement.
    pub fn codegen_statement(&self, instructions: &mut Vec<Instruction>, stmt: &Stmt)
        ensures
            final(instructions)@ == old(instructions)@ + stmt_code(*stmt),
    {
        match stmt {
            Stmt::Return(val) => {
                if let Some(ret) = val {
                    match ret {
                        Expr::Lit(LiteralExpression::Int(value)) => {
                            instructions.push(
                                Instruction::Mov {
                                    from: Operand::Imm(*value),
                                    to: Operand::Reg(Register::EAX),
                                },
                            )
                        },
                    }
                }
                instructions.push(Instruction::Ret);
            },
        }
        assert(final(instructions)@ =~= old(instructions)@ + stmt_code(*stmt));
    }
}

/// A program of one function with one statement.
pub open spec fn single_function(name: Seq<u8>, stmt: Stmt) -> Seq<DeclView> {
    seq![DeclView::Fun(FunctionView { name, body: seq![stmt] })]
}

/// The code of a function that only returns is the return instruction alone.
pub proof fn lemma_bare_return_code(name: Seq<u8>)
    ensures
        program_code(single_function(name, Stmt::Return(None))) == seq![
            ASMFunctionView { name, instructions: seq![Instruction::Ret] },
        ],
{
    let body = seq![Stmt::Return(None)];
    assert(body.drop_last() =~= Seq::<Stmt>::empty());
    assert(block_code(body) =~= seq![Instruction::Ret]) by {
        reveal_with_fuel(block_code, 2);
    }
    assert(program_code(single_function(name, Stmt::Return(None))) =~= seq![
        ASMFunctionView { name, instructions: seq![Instruction::Ret] },
    ]);
}

/// The text of a function that returns a literal: the `.globl` directive and
/// the label with its name, the move of the value into the return register,
/// the return, an empty line, and the stack note at the end.
pub proof fn lemma_return_value_text(name: Seq<u8>, value: VarInt)
    ensures
        program_text(
            program_code(single_function(name, Stmt::Return(Some(Expr::Lit(LiteralExpression::Int(value)))))),
        ) == lit("\t.globl ") + name + lit("\n") + name + lit(":\n") + lit("\t") + lit("movl ") + lit("$")
            + value.text() + lit(",") + lit("%eax") + lit("\n") + lit("\t") + lit("ret") + lit("\n") + lit("\n")
            + noexecstack(),
{
    let stmt = Stmt::Return(Some(Expr::Lit(LiteralExpression::Int(value))));
    let mov = Instruction::Mov { from: Operand::Imm(value), to: Operand::Reg(Register::EAX) };
    let body = seq![stmt];
    let code = seq![mov, Instruction::Ret];
    assert(body.drop_last() =~= Seq::<Stmt>::empty());
    assert(block_code(body) =~= code) by {
        reveal_with_fuel(block_code, 2);
    }
    let function = ASMFunctionView { name, instructions: code };
    assert(program_code(single_function(name, stmt)) =~= seq![function]);
    assert(code.drop_last() =~= seq![mov]);
    assert(seq![mov].drop_last() =~= Seq::<Instruction>::empty());
    assert(instructions_text(code) =~= lit("\t") + lit("movl ") + lit("$") + value.text() + lit(",") + lit("%eax")
        + lit("\n") + lit("\t") + lit("ret") + lit("\n")) by {
        reveal_with_fuel(instructions_text, 3);
    }
    assert(seq![function].drop_last() =~= Seq::<ASMFunctionView>::empty());
    assert(functions_text(seq![function]) =~= lit("\t.globl ") + name + lit("\n") + name + lit(":\n")
        + instructions_text(code) + lit("\n")) by {
        reveal_with_fuel(functions_text, 2);
    }
    assert(program_text(seq![function]) =~= lit("\t.globl ") + name + lit("\n") + name + lit(":\n") + lit("\t")
        + lit("movl ") + lit("$") + value.text() + lit(",") + lit("%eax") + lit("\n") + lit("\t") + lit("ret")
        + lit("\n") + lit("\n") + noexecstack());
}

} // verus!
