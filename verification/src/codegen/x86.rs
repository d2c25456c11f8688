use crate::ir::{instrs_view, opt_value_view, IRValue, InstrModel, Instruction, ValueModel};
use crate::text::{decimal_int, int_text};
use vstd::prelude::*;
use vstd::string::StringExecFns;

verus! {

/// Why no assembly was generated for an instruction.
#[derive(Debug, Clone, Copy, PartialEq, Eq, Structural)]
pub enum CodegenError {
    /// The instruction is none of program, block and local declaration.
    UnsupportedInstruction,
    /// The value is no integer immediate. A float immediate is among these:
    /// its text needs a float formatter, which this library does not have.
    UnsupportedValue,
}

/// The program that [`X86CodeGenerator::generate`] emits: it prints a
/// greeting through the C library.
pub open spec fn greeting_program() -> Seq<char> {
    "global _main\nextern _printf\nsection .text\n_main:\npush message\ncall _printf\nadd esp, 4\nret\nmessage:\ndb 'Hello, World', 10, 0"@
}

/// Generated assembly: the text, and the error where generation stopped
/// early. The text then holds what was generated before the error.
pub struct Asm {
    pub text: Seq<char>,
    pub error: Option<CodegenError>,
}

/// The operand that stands for a value.
pub open spec fn operand_text(v: ValueModel) -> Result<Seq<char>, CodegenError> {
    match v {
        ValueModel::INT(i) => Ok(decimal_int(i as int)),
        _ => Err(CodegenError::UnsupportedValue),
    }
}

/// The assembly for the declaration of a local: a move of the first value
/// into the accumulator, and nothing where there is no first value.
pub open spec fn stack_var_asm(value: Option<ValueModel>) -> Asm {
    match value {
        None => Asm { text: Seq::empty(), error: None },
        Some(v) => match operand_text(v) {
            Ok(operand) => Asm { text: "mov eax, "@ + operand, error: None },
            Err(e) => Asm { text: Seq::empty(), error: Some(e) },
        },
    }
}

/// The assembly for an instruction.
pub open spec fn instruction_asm(i: InstrModel) -> Asm
    decreases i,
{
    match i {
        InstrModel::PROGRAM(items) => items_asm(items, 0),
        InstrModel::BLOCK(label, items) => {
            let body = items_asm(items, 0);
            Asm { text: label + ":\n"@ + body.text, error: body.error }
        },
        InstrModel::STACK_VAR(_, _, value) => stack_var_asm(value),
        _ => Asm { text: Seq::empty(), error: Some(CodegenError::UnsupportedInstruction) },
    }
}

/// The assembly for the instructions of a list from position `from` on.
pub open spec fn items_asm(items: Seq<InstrModel>, from: int) -> Asm
    decreases items, items.len() - from,
{
    if 0 <= from < items.len() {
        let first = instruction_asm(items[from]);
        match first.error {
            Some(_) => first,
            None => {
                let rest = items_asm(items, from + 1);
                Asm { text: first.text + rest.text, error: rest.error }
            },
        }
    } else {
        Asm { text: Seq::empty(), error: None }
    }
}

/// What a generator step hands back, as the model's optional error.
pub open spec fn error_of(r: Result<(), CodegenError>) -> Option<CodegenError> {
    match r {
        Ok(_) => None,
        Err(e) => Some(e),
    }
}

/// Generates assembly text for 32-bit x86.
pub struct X86CodeGenerator {
    /// The assembly generated so far.
    pub str_buffer: String,
}

impl X86CodeGenerator {
    /// Appends the program that is emitted for every input, whatever the
    /// instruction holds: one that prints a greeting.
    pub fn generate(&mut self, instruction: &Instruction)
        ensures
            final(self).str_buffer@ == old(self).str_buffer@ + greeting_program(),
    {
        self.str_buffer.append(
            "global _main\nextern _printf\nsection .text\n_main:\npush message\ncall _printf\nadd esp, 4\nret\nmessage:\ndb 'Hello, World', 10, 0",
        );
    }

    /// Appends the assembly for an instruction.
    pub fn generate_instruction(&mut self, instruction: &Instruction) -> (r: Result<
        (),
        CodegenError,
    >)
        ensures
            final(self).str_buffer@ == old(self).str_buffer@ + instruction_asm(instruction@).text,
            error_of(r) == instruction_asm(instruction@).error,
        decreases instruction, 1nat,
    {
        match instruction {
            Instruction::PROGRAM(instructions) => self.generate_program(instructions),
            Instruction::BLOCK(label, block) => self.generate_block(label, block),
            Instruction::STACK_VAR(label, _, instruction_data) => self.generate_stack_var(
                label,
                instruction_data,
            ),
            _ => {
                assert(self.str_buffer@ + Seq::<char>::empty() =~= self.str_buffer@);
                Err(CodegenError::UnsupportedInstruction)
            },
        }
    }

    /// The operand that stands for a value.
    pub fn instruction_data_to_asm_string(&self, instruction_data: &IRValue) -> (r: Result<
        String,
        CodegenError,
    >)
        ensures
            match r {
                Ok(s) => operand_text(instruction_data@) == Ok::<Seq<char>, CodegenError>(s@),
                Err(e) => operand_text(instruction_data@) == Err::<Seq<char>, CodegenError>(e),
            },
    {
        match instruction_data {
            IRValue::INT(i) => Ok(int_text(*i)),
            _ => Err(CodegenError::UnsupportedValue),
        }
    }

    #[verifier::loop_isolation(false)]
    fn generate_items(&mut self, instructions: &Vec<Instruction>) -> (r: Result<(), CodegenError>)
        ensures
            final(self).str_buffer@ == old(self).str_buffer@ + items_asm(
                instrs_view(instructions@),
                0,
            ).text,
            error_of(r) == items_asm(instrs_view(instructions@), 0).error,
        decreases instructions, 0nat,
    {
        let ghost items = instrs_view(instructions@);
        let ghost start = self.str_buffer@;
        let ghost whole = items_asm(items, 0);
        let mut i: usize = 0;
        assert(start + Seq::<char>::empty() =~= start);
        while i < instructions.len()
            invariant
                i <= instructions.len(),
                items == instrs_view(instructions@),
                ({
                    let rest = items_asm(items, i as int);
                    &&& start + whole.text == self.str_buffer@ + rest.text
                    &&& whole.error == rest.error
                }),
            decreases instructions.len() - i,
        {
            let ghost before = self.str_buffer@;
            let step = self.generate_instruction(&instructions[i]);
            proof {
                assert(items.len() == instructions.len());
                assert(items[i as int] == instructions[i as int]@);
                let first = instruction_asm(items[i as int]);
                let rest = items_asm(items, i + 1);
                assert(before + (first.text + rest.text) =~= (before + first.text) + rest.text);
            }
            match step {
                Ok(()) => {},
                Err(e) => {
                    return Err(e);
                },
            }
            i += 1;
        }
        assert(self.str_buffer@ + Seq::<char>::empty() =~= self.str_buffer@);
        Ok(())
    }

    fn generate_program(&mut self, instructions: &Box<Vec<Instruction>>) -> (r: Result<
        (),
        CodegenError,
    >)
        ensures
            final(self).str_buffer@ == old(self).str_buffer@ + items_asm(
                instrs_view(instructions@),
                0,
            ).text,
            error_of(r) == items_asm(instrs_view(instructions@), 0).error,
        decreases instructions, 1nat,
    {
        self.generate_items(instructions)
    }

    fn generate_block(&mut self, label: &String, block: &Box<Vec<Instruction>>) -> (r: Result<
        (),
        CodegenError,
    >)
        ensures
            final(self).str_buffer@ == old(self).str_buffer@ + (label@ + ":\n"@ + items_asm(
                instrs_view(block@),
                0,
            ).text),
            error_of(r) == items_asm(instrs_view(block@), 0).error,
        decreases block, 1nat,
    {
        self.str_buffer.append(label.as_str());
        self.str_buffer.append(":\n");
        let r = self.generate_items(block);
        assert(self.str_buffer@ =~= old(self).str_buffer@ + (label@ + ":\n"@ + items_asm(
            instrs_view(block@),
            0,
        ).text));
        r
    }

    /// Appends the assembly for the declaration of a local.
    pub fn generate_stack_var(&mut self, label: &String, instruction_data: &Option<IRValue>) -> (r:
        Result<(), CodegenError>)
        ensures
            final(self).str_buffer@ == old(self).str_buffer@ + stack_var_asm(
                opt_value_view(*instruction_data),
            ).text,
            error_of(r) == stack_var_asm(opt_value_view(*instruction_data)).error,
    {
        assert(self.str_buffer@ + Seq::<char>::empty() =~= self.str_buffer@);
        match instruction_data {
            Some(val) => match self.instruction_data_to_asm_string(val) {
                Ok(operand) => {
                    self.str_buffer.append("mov eax, ");
                    self.str_buffer.append(operand.as_str());
                    assert(self.str_buffer@ =~= old(self).str_buffer@ + ("mov eax, "@
                        + operand@));
                    Ok(())
                },
                Err(e) => Err(e),
            },
            None => Ok(()),
        }
    }
}

} // verus!
