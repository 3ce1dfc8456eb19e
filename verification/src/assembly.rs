//! The assembly form of a program and its text.
use vstd::prelude::*;
use crate::utils::{lit, VarInt};

verus! {

/// A physical register. `EAX` carries integer return values.
#[derive(Debug, Clone, Copy, PartialEq, Eq, Structural)]
pub enum Register {
    EAX,
}

/// What an instruction works on: a register or an immediate value.
#[derive(Debug, Clone, Copy, PartialEq, Eq, Structural)]
pub enum Operand {
    Reg(Register),
    Imm(VarInt),
}

/// One instruction of the target.
#[derive(Debug, Clone, Copy, PartialEq, Eq, Structural)]
pub enum Instruction {
    Mov { from: Operand, to: Operand },
    Ret,
}

/// A function: its name, borrowed from the source, and its instructions.
#[derive(Debug, Clone, PartialEq)]
pub struct ASMFunction<'s> {
    pub name: &'s [u8],
    pub instructions: Vec<Instruction>,
}

/// An ordered sequence of assembly functions.
#[derive(Debug, Clone, PartialEq)]
pub struct ASMProgram<'s> {
    pub functions: Vec<ASMFunction<'s>>,
}

/// An assembly function as a plain value.
pub struct ASMFunctionView {
    pub name: Seq<u8>,
    pub instructions: Seq<Instruction>,
}

impl<'s> View for ASMFunction<'s> {
    type V = ASMFunctionView;

    open spec fn view(&self) -> ASMFunctionView {
        ASMFunctionView { name: self.name@, instructions: self.instructions@ }
    }
}

impl<'s> View for ASMProgram<'s> {
    type V = Seq<ASMFunctionView>;

    open spec fn view(&self) -> Seq<ASMFunctionView> {
        self.functions@.map_values(|f: ASMFunction<'s>| f@)
    }
}

/// The directive that ends every emitted text: the object needs no
/// executable stack.
pub open spec fn noexecstack() -> Seq<u8> {
    lit(".section .note.GNU-stack,\"\",@progbits\n")
}

/// A register by its name behind `%`.
pub open spec fn register_text(register: Register) -> Seq<u8> {
    match register {
        Register::EAX => lit("%eax"),
    }
}

/// A register by its name, an immediate after `$`.
pub open spec fn operand_text(operand: Operand) -> Seq<u8> {
    match operand {
        Operand::Reg(register) => register_text(register),
        Operand::Imm(value) => lit("$") + value.text(),
    }
}

/// `movl <from>,<to>` for a move, `ret` for a return.
pub open spec fn instruction_text(instruction: Instruction) -> Seq<u8> {
    match instruction {
        Instruction::Mov { from, to } => lit("movl ") + operand_text(from) + lit(",") + operand_text(to),
        Instruction::Ret => lit("ret"),
    }
}

/// One line per instruction: a tab, the instruction, a line feed.
pub open spec fn instructions_text(instructions: Seq<Instruction>) -> Seq<u8>
    decreases instructions.len(),
{
    if instructions.len() == 0 {
        Seq::empty()
    } else {
        instructions_text(instructions.drop_last()) + lit("\t") + instruction_text(instructions.last())
            + lit("\n")
    }
}

/// The `.globl` directive, the label, the instructions and an empty line.
pub open spec fn function_text(function: ASMFunctionView) -> Seq<u8> {
    lit("\t.globl ") + function.name + lit("\n") + function.name + lit(":\n") + instructions_text(
        function.instructions,
    ) + lit("\n")
}

/// The texts of the functions, in order.
pub open spec fn functions_text(functions: Seq<ASMFunctionView>) -> Seq<u8>
    decreases functions.len(),
{
    if functions.len() == 0 {
        Seq::empty()
    } else {
        functions_text(functions.drop_last()) + function_text(functions.last())
    }
}

/// The functions, then the stack note.
pub open spec fn program_text(functions: Seq<ASMFunctionView>) -> Seq<u8> {
    functions_text(functions) + noexecstack()
}

/// A value that has a text in the target assembly syntax.
pub trait AssemblyRepr {
    /// The text of the value.
    spec fn asm_text(&self) -> Seq<u8>;

    /// Appends the text of the value to `writer`.
    fn generate_asm(&self, writer: &mut Vec<u8>)
        ensures
            final(writer)@ == old(writer)@ + self.asm_text(),
    ;
}

impl AssemblyRepr for Register {
    open spec fn asm_text(&self) -> Seq<u8> {
        register_text(*self)
    }

    fn generate_asm(&self, writer: &mut Vec<u8>) {
        match *self {
            Register::EAX => writer.extend_from_slice("%eax".as_bytes()),
        }
    }
}

impl AssemblyRepr for Operand {
    open spec fn asm_text(&self) -> Seq<u8> {
        operand_text(*self)
    }

    fn generate_asm(&self, writer: &mut Vec<u8>) {
        match *self {
            Operand::Reg(register) => register.generate_asm(writer),
            Operand::Imm(value) => {
                writer.extend_from_slice("$".as_bytes());
                value.write_text(writer);
                assert(final(writer)@ =~= old(writer)@ + self.asm_text());
            },
        }
    }
}

impl AssemblyRepr for Instruction {
    open spec fn asm_text(&self) -> Seq<u8> {
        instruction_text(*self)
    }

    fn generate_asm(&self, writer: &mut Vec<u8>) {
        match *self {
            Instruction::Mov { from, to } => {
                writer.extend_from_slice("movl ".as_bytes());
                from.generate_asm(writer);
                writer.extend_from_slice(",".as_bytes());
                to.generate_asm(writer);
                assert(final(writer)@ =~= old(writer)@ + self.asm_text());
            },
            Instruction::Ret => writer.extend_from_slice("ret".as_bytes()),
        }
    }
}

impl<'s> AssemblyRepr for ASMFunction<'s> {
    open spec fn asm_text(&self) -> Seq<u8> {
        function_text(self@)
    }

    fn generate_asm(&self, writer: &mut Vec<u8>) {
        writer.extend_from_slice("\t.globl ".as_bytes());
        writer.extend_from_slice(self.name);
        writer.extend_from_slice("\n".as_bytes());
        writer.extend_from_slice(self.name);
        writer.extend_from_slice(":\n".as_bytes());
        let ghost head = writer@;
        let mut i: usize = 0;
        assert(self.instructions@.take(0) =~= Seq::<Instruction>::empty());
        assert(head + Seq::<u8>::empty() =~= head);
        while i < self.instructions.len()
            invariant
                0 <= i <= self.instructions.len(),
                writer@ == head + instructions_text(self.instructions@.take(i as int)),
            decreases self.instructions.len() - i,
        {
            let ghost before = writer@;
            assert(self.instructions@.take(i + 1).drop_last() =~= self.instructions@.take(i as int));
            writer.extend_from_slice("\t".as_bytes());
            self.instructions[i].generate_asm(writer);
            writer.extend_from_slice("\n".as_bytes());
            assert(writer@ =~= head + instructions_text(self.instructions@.take(i + 1)));
            i = i + 1;
        }
        assert(self.instructions@.take(i as int) =~= self.instructions@);
        writer.extend_from_slice("\n".as_bytes());
        assert(final(writer)@ =~= old(writer)@ + self.asm_text());
    }
}

impl<'s> AssemblyRepr for ASMProgram<'s> {
    open spec fn asm_text(&self) -> Seq<u8> {
        program_text(self@)
    }

    fn generate_asm(&self, writer: &mut Vec<u8>) {
        let ghost head = writer@;
        let mut i: usize = 0;
        assert(self@.take(0) =~= Seq::<ASMFunctionView>::empty());
        assert(head + Seq::<u8>::empty() =~= head);
        while i < self.functions.len()
            invariant
                0 <= i <= self.functions.len(),
                self@.len() == self.functions@.len(),
                writer@ == head + functions_text(self@.take(i as int)),
            decreases self.functions.len() - i,
        {
            assert(self@.take(i + 1).drop_last() =~= self@.take(i as int));
            assert(self@.take(i + 1).last() == self.functions@[i as int]@);
            self.functions[i].generate_asm(writer);
            assert(writer@ =~= head + functions_text(self@.take(i + 1)));
            i = i + 1;
        }
        assert(self@.take(i as int) =~= self@);
        writer.extend_from_slice(".section .note.GNU-stack,\"\",@progbits\n".as_bytes());
        assert(final(writer)@ =~= old(writer)@ + self.asm_text());
    }
}

impl<'s> ASMProgram<'s> {
    /// The whole text of the program.
    pub fn to_text(&self) -> (r: Vec<u8>)
        ensures
            r@ == program_text(self@),
    {
        let mut out: Vec<u8> = Vec::new();
        self.generate_asm(&mut out);
        assert(out@ =~= program_text(self@));
        out
    }
}

} // verus!
