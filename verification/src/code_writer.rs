//! The generator: it turns decoded instructions into assembly text.

use vstd::prelude::*;
use crate::code::{
    arithmetic_code, binary_code, code_of, comparison_code, labels_of, pop_code, pop_to_m,
    push_code, push_from_d, step_a, transfer_code, unary_code,
};
use crate::command::{Command, CommandType, Operator, Segment};
use crate::hack::{listing, write_listing, Comp, Condition, Instr, Register, Target};

verus! {

/// The state of a translation: the text written so far, the number of labels
/// used so far, and the name of the module that is being translated.
pub struct CodeWriter {
    pub output: String,
    pub label_num: usize,
    pub current_translated_file_name: String,
}

impl CodeWriter {
    /// A generator for the module of the given name, with nothing written and
    /// no label used.
    pub fn new(module_name: &str) -> (writer: CodeWriter)
        ensures
            writer.output@ == Seq::<char>::empty(),
            writer.label_num == 0,
            writer.current_translated_file_name@ == module_name@,
    {
        CodeWriter {
            output: String::new(),
            label_num: 0,
            current_translated_file_name: module_name.to_owned(),
        }
    }

    /// Writes the translation of an arithmetic, logical or comparison
    /// instruction. A comparison uses up the next two labels.
    pub fn write_arithmetic(&mut self, command: Operator)
        requires
            command.is_comparison() ==> old(self).label_num + 2 <= usize::MAX,
        ensures
            final(self).output@ == old(self).output@ + listing(
                arithmetic_code(command, old(self).label_num as nat),
                old(self).current_translated_file_name@,
            ),
            final(self).label_num == old(self).label_num + labels_of(Command::Arithmetic(command)),
            final(self).current_translated_file_name == old(self).current_translated_file_name,
    {
        let mut code: Vec<Instr> = Vec::new();
        match command {
            Operator::Add | Operator::Sub | Operator::And | Operator::Or => {
                Self::write_binary_operation(&mut code, command);
            },
            Operator::Neg | Operator::Not => {
                Self::write_unary_operation(&mut code, command);
            },
            Operator::Eq | Operator::Gt | Operator::Lt => {
                let holds = self.new_label();
                let join = self.new_label();
                Self::write_comp_operation(&mut code, command, holds, join);
            },
        }
        assert(code@ =~= arithmetic_code(command, old(self).label_num as nat));
        self.write_codes(&code);
    }

    /// Writes the translation of a push or a pop. Nothing is written for a
    /// pop to the segment of literal values, nor for another kind of
    /// instruction, a comment among them.
    pub fn write_push_pop(&mut self, command: CommandType, segment: Segment, index: u32)
        ensures
            final(self).output@ == old(self).output@ + listing(
                transfer_code(command, segment, index),
                old(self).current_translated_file_name@,
            ),
            command != CommandType::CPush && command != CommandType::CPop ==> final(self).output@
                == old(self).output@,
            final(self).label_num == old(self).label_num,
            final(self).current_translated_file_name == old(self).current_translated_file_name,
    {
        let mut code: Vec<Instr> = Vec::new();
        match command {
            CommandType::CPush => {
                match segment {
                    Segment::Constant => {
                        code.push(Instr::At(Target::Number(index)));
                        code.push(Instr::Assign(Register::D, Comp::A));
                        Self::write_push_from_d_register(&mut code);
                    },
                    Segment::Local | Segment::Argument | Segment::This | Segment::That => {
                        Self::write_push_from_virtual_segment(&mut code, segment, index);
                    },
                    Segment::Temp | Segment::Pointer => {
                        Self::write_push_from_static_segment(&mut code, segment, index);
                    },
                    Segment::Static => {
                        code.push(Instr::At(Target::Static(index)));
                        code.push(Instr::Assign(Register::D, Comp::M));
                        Self::write_push_from_d_register(&mut code);
                    },
                }
                assert(code@ =~= push_code(segment, index));
            },
            CommandType::CPop => {
                match segment {
                    Segment::Constant => {},
                    Segment::Local | Segment::Argument | Segment::This | Segment::That => {
                        Self::write_pop_from_virtual_segment(&mut code, segment, index);
                    },
                    Segment::Temp | Segment::Pointer => {
                        Self::write_pop_from_static_segment(&mut code, segment, index);
                    },
                    Segment::Static => {
                        Self::write_pop_to_m_register(&mut code);
                        code.push(Instr::Assign(Register::D, Comp::M));
                        code.push(Instr::At(Target::Static(index)));
                        code.push(Instr::Assign(Register::M, Comp::D));
                    },
                }
                assert(code@ =~= pop_code(segment, index));
            },
            _ => {},
        }
        assert(code@ =~= transfer_code(command, segment, index));
        self.write_codes(&code);
        assert(command != CommandType::CPush && command != CommandType::CPop ==> self.output@
            =~= old(self).output@);
    }

    /// Writes the translation of a decoded instruction.
    pub fn write_command(&mut self, command: Command)
        requires
            labels_of(command) > 0 ==> old(self).label_num + 2 <= usize::MAX,
        ensures
            final(self).output@ == old(self).output@ + listing(
                code_of(command, old(self).label_num as nat),
                old(self).current_translated_file_name@,
            ),
            final(self).label_num == old(self).label_num + labels_of(command),
            final(self).current_translated_file_name == old(self).current_translated_file_name,
    {
        match command {
            Command::Arithmetic(operator) => self.write_arithmetic(operator),
            Command::Push(segment, index) => self.write_push_pop(
                CommandType::CPush,
                segment,
                index,
            ),
            Command::Pop(segment, index) => self.write_push_pop(CommandType::CPop, segment, index),
        }
    }

    /// Names the module that the instructions to come belong to. The labels
    /// go on from where they are.
    pub fn set_file_name(&mut self, module_name: &str)
        ensures
            final(self).current_translated_file_name@ == module_name@,
            final(self).output == old(self).output,
            final(self).label_num == old(self).label_num,
    {
        self.current_translated_file_name = module_name.to_owned();
    }

    /// Hands out the text written since the last call, and starts anew with
    /// none.
    pub fn take_output(&mut self) -> (text: String)
        ensures
            text@ == old(self).output@,
            final(self).output@ == Seq::<char>::empty(),
            final(self).label_num == old(self).label_num,
            final(self).current_translated_file_name == old(self).current_translated_file_name,
    {
        let mut text = String::new();
        std::mem::swap(&mut self.output, &mut text);
        text
    }

    /// Ends the translation and hands out the text that is left.
    pub fn close(self) -> (text: String)
        ensures
            text@ == self.output@,
    {
        self.output
    }

    fn write_step_a(code: &mut Vec<Instr>, count: u32)
        ensures
            final(code)@ == old(code)@ + step_a(count as nat),
    {
        let mut i: u32 = 0;
        assert(code@ =~= old(code)@ + step_a(0));
        while i < count
            invariant
                i <= count,
                code@ == old(code)@ + step_a(i as nat),
            decreases count - i,
        {
            code.push(Instr::Assign(Register::A, Comp::APlusOne));
            i += 1;
            assert(code@ =~= old(code)@ + step_a(i as nat));
        }
    }

    fn write_push_from_static_segment(code: &mut Vec<Instr>, segment: Segment, index: u32)
        requires
            segment == Segment::Temp || segment == Segment::Pointer,
        ensures
            final(code)@ == old(code)@ + push_code(segment, index),
    {
        let base_address: u32 = match segment {
            Segment::Temp => 5,
            _ => 3,
        };
        code.push(Instr::At(Target::Number(base_address)));
        Self::write_step_a(code, index);
        code.push(Instr::Assign(Register::D, Comp::M));
        Self::write_push_from_d_register(code);
        assert(code@ =~= old(code)@ + push_code(segment, index));
    }

    fn write_push_from_virtual_segment(code: &mut Vec<Instr>, segment: Segment, index: u32)
        requires
            segment == Segment::Local || segment == Segment::Argument || segment == Segment::This
                || segment == Segment::That,
        ensures
            final(code)@ == old(code)@ + push_code(segment, index),
    {
        let register = match segment {
            Segment::Local => Target::Local,
            Segment::Argument => Target::Argument,
            Segment::This => Target::This,
            _ => Target::That,
        };
        code.push(Instr::At(register));
        code.push(Instr::Assign(Register::A, Comp::M));
        Self::write_step_a(code, index);
        code.push(Instr::Assign(Register::D, Comp::M));
        Self::write_push_from_d_register(code);
        assert(code@ =~= old(code)@ + push_code(segment, index));
    }

    fn write_pop_from_virtual_segment(code: &mut Vec<Instr>, segment: Segment, index: u32)
        requires
            segment == Segment::Local || segment == Segment::Argument || segment == Segment::This
                || segment == Segment::That,
        ensures
            final(code)@ == old(code)@ + pop_code(segment, index),
    {
        let register = match segment {
            Segment::Local => Target::Local,
            Segment::Argument => Target::Argument,
            Segment::This => Target::This,
            _ => Target::That,
        };
        Self::write_pop_to_m_register(code);
        code.push(Instr::Assign(Register::D, Comp::M));
        code.push(Instr::At(register));
        code.push(Instr::Assign(Register::A, Comp::M));
        Self::write_step_a(code, index);
        code.push(Instr::Assign(Register::M, Comp::D));
        assert(code@ =~= old(code)@ + pop_code(segment, index));
    }

    fn write_pop_from_static_segment(code: &mut Vec<Instr>, segment: Segment, index: u32)
        requires
            segment == Segment::Temp || segment == Segment::Pointer,
        ensures
            final(code)@ == old(code)@ + pop_code(segment, index),
    {
        let base_address: u32 = match segment {
            Segment::Temp => 5,
            _ => 3,
        };
        Self::write_pop_to_m_register(code);
        code.push(Instr::Assign(Register::D, Comp::M));
        code.push(Instr::At(Target::Number(base_address)));
        Self::write_step_a(code, index);
        code.push(Instr::Assign(Register::M, Comp::D));
        assert(code@ =~= old(code)@ + pop_code(segment, index));
    }

    fn write_pop_to_m_register(code: &mut Vec<Instr>)
        ensures
            final(code)@ == old(code)@ + pop_to_m(),
    {
        code.push(Instr::At(Target::StackPointer));
        code.push(Instr::Assign(Register::M, Comp::MMinusOne));
        code.push(Instr::Assign(Register::A, Comp::M));
        assert(code@ =~= old(code)@ + pop_to_m());
    }

    fn write_push_from_d_register(code: &mut Vec<Instr>)
        ensures
            final(code)@ == old(code)@ + push_from_d(),
    {
        code.push(Instr::At(Target::StackPointer));
        code.push(Instr::Assign(Register::A, Comp::M));
        code.push(Instr::Assign(Register::M, Comp::D));
        code.push(Instr::At(Target::StackPointer));
        code.push(Instr::Assign(Register::M, Comp::MPlusOne));
        assert(code@ =~= old(code)@ + push_from_d());
    }

    fn write_binary_operation(code: &mut Vec<Instr>, command: Operator)
        requires
            command.is_binary(),
        ensures
            final(code)@ == old(code)@ + binary_code(command),
    {
        Self::write_pop_to_m_register(code);
        code.push(Instr::Assign(Register::D, Comp::M));
        Self::write_pop_to_m_register(code);
        match command {
            Operator::Add => code.push(Instr::Assign(Register::D, Comp::DPlusM)),
            Operator::Sub => code.push(Instr::Assign(Register::D, Comp::MMinusD)),
            Operator::And => code.push(Instr::Assign(Register::D, Comp::DAndM)),
            _ => code.push(Instr::Assign(Register::D, Comp::DOrM)),
        }
        Self::write_push_from_d_register(code);
        assert(code@ =~= old(code)@ + binary_code(command));
    }

    fn write_unary_operation(code: &mut Vec<Instr>, command: Operator)
        requires
            command.is_unary(),
        ensures
            final(code)@ == old(code)@ + unary_code(command),
    {
        code.push(Instr::At(Target::StackPointer));
        code.push(Instr::Assign(Register::A, Comp::MMinusOne));
        match command {
            Operator::Neg => code.push(Instr::Assign(Register::M, Comp::NegM)),
            _ => code.push(Instr::Assign(Register::M, Comp::NotM)),
        }
        assert(code@ =~= old(code)@ + unary_code(command));
    }

    fn write_comp_operation(code: &mut Vec<Instr>, command: Operator, holds: usize, join: usize)
        requires
            command.is_comparison(),
        ensures
            final(code)@ == old(code)@ + comparison_code(command, holds, join),
    {
        Self::write_pop_to_m_register(code);
        code.push(Instr::Assign(Register::D, Comp::M));
        Self::write_pop_to_m_register(code);
        let comp_type = match command {
            Operator::Eq => Condition::Zero,
            Operator::Gt => Condition::Positive,
            _ => Condition::Negative,
        };
        code.push(Instr::Assign(Register::D, Comp::MMinusD));
        code.push(Instr::At(Target::Label(holds)));
        code.push(Instr::Jump(Comp::D, comp_type));
        code.push(Instr::Assign(Register::D, Comp::Zero));
        code.push(Instr::At(Target::Label(join)));
        code.push(Instr::Jump(Comp::Zero, Condition::Always));
        code.push(Instr::Mark(holds));
        code.push(Instr::Assign(Register::D, Comp::MinusOne));
        code.push(Instr::Mark(join));
        Self::write_push_from_d_register(code);
        assert(code@ =~= old(code)@ + comparison_code(command, holds, join));
    }

    fn write_codes(&mut self, code: &Vec<Instr>)
        ensures
            final(self).output@ == old(self).output@ + listing(
                code@,
                old(self).current_translated_file_name@,
            ),
            final(self).label_num == old(self).label_num,
            final(self).current_translated_file_name == old(self).current_translated_file_name,
    {
        write_listing(&mut self.output, code, self.current_translated_file_name.as_str());
    }

    fn new_label(&mut self) -> (label: usize)
        requires
            old(self).label_num < usize::MAX,
        ensures
            label == old(self).label_num + 1,
            final(self).label_num == label,
            final(self).output == old(self).output,
            final(self).current_translated_file_name == old(self).current_translated_file_name,
    {
        self.label_num += 1;
        self.label_num
    }
}

} // verus!
