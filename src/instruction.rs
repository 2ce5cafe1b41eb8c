//! Decoding of 32-bit instruction words into an opcode and its typed operands.
use vstd::prelude::*;

use crate::error::ChunkError;

verus! {

/// The operations of the register machine, numbered by their 6-bit code.
#[allow(non_camel_case_types)]
#[derive(Clone, Copy, Debug, PartialEq, Eq, Structural)]
pub enum VMOpcode {
    MOVE,
    LOADK,
    LOADBOOL,
    LOADNIL,
    GETUPVAL,
    GETGLOBAL,
    GETTABLE,
    SETGLOBAL,
    SETUPVAL,
    SETTABLE,
    NEWTABLE,
    SELF,
    ADD,
    SUB,
    MUL,
    DIV,
    MOD,
    POW,
    UNM,
    NOT,
    LEN,
    CONCAT,
    JMP,
    EQ,
    LT,
    LE,
    TEST,
    TESTSET,
    CALL,
    TAILCALL,
    RETURN,
    FORLOOP,
    FORPREP,
    TFORLOOP,
    SETLIST,
    CLOSE,
    CLOSURE,
    VARARG,
}

/// Number of opcodes; codes `0..OPCODE_COUNT` are defined.
pub const OPCODE_COUNT: u32 = 38;

/// The layout of one operand field inside an instruction word.
#[allow(non_camel_case_types)]
#[derive(Clone, Copy, Debug, PartialEq, Eq, Structural)]
pub enum InstParamType {
    A,
    B,
    C,
    Bx,
    sBx,
}

/// One decoded operand, tagged with the field it came from.
#[allow(non_camel_case_types)]
#[derive(Clone, Copy, Debug, PartialEq, Eq, Structural)]
pub enum InstParam {
    A(u32),
    B(u32),
    C(u32),
    Bx(u32),
    sBx(i32),
}

/// The bit of a B or C field that marks a constant-pool index.
pub const MASK_CBIT: u32 = 0x100;

/// Stored Bx value that stands for a signed offset of zero.
pub const SBX_BIAS: u32 = 131071;

const MASK_B: u32 = 0b11111111100000000000000000000000u32;
const MASK_C: u32 = 0b00000000011111111100000000000000u32;
const MASK_BX: u32 = 0b11111111111111111100000000000000u32;
const MASK_A: u32 = 0b00000000000000000011111111000000u32;
const MASK_OP: u32 = 0b00000000000000000000000000111111u32;
const A_SHIFT: u32 = 6;
const B_SHIFT: u32 = 23;
const C_SHIFT: u32 = 14;
const BX_SHIFT: u32 = 14;

/// Low 6 bits: the opcode number.
pub open spec fn field_op(w: u32) -> u32 {
    w & 0x3f
}

/// Bits 6..14: field A.
pub open spec fn field_a(w: u32) -> u32 {
    (w >> 6) & 0xff
}

/// Bits 14..23: field C.
pub open spec fn field_c(w: u32) -> u32 {
    (w >> 14) & 0x1ff
}

/// Bits 23..32: field B.
pub open spec fn field_b(w: u32) -> u32 {
    w >> 23
}

/// Bits 14..32: field Bx, B and C read as one unsigned number.
pub open spec fn field_bx(w: u32) -> u32 {
    w >> 14
}

/// Field Bx read as a signed offset.
pub open spec fn field_sbx(w: u32) -> int {
    field_bx(w) as int - SBX_BIAS as int
}

impl VMOpcode {
    /// The 6-bit code of the opcode.
    pub open spec fn code(self) -> u32 {
        match self {
            VMOpcode::MOVE => 0,
            VMOpcode::LOADK => 1,
            VMOpcode::LOADBOOL => 2,
            VMOpcode::LOADNIL => 3,
            VMOpcode::GETUPVAL => 4,
            VMOpcode::GETGLOBAL => 5,
            VMOpcode::GETTABLE => 6,
            VMOpcode::SETGLOBAL => 7,
            VMOpcode::SETUPVAL => 8,
            VMOpcode::SETTABLE => 9,
            VMOpcode::NEWTABLE => 10,
            VMOpcode::SELF => 11,
            VMOpcode::ADD => 12,
            VMOpcode::SUB => 13,
            VMOpcode::MUL => 14,
            VMOpcode::DIV => 15,
            VMOpcode::MOD => 16,
            VMOpcode::POW => 17,
            VMOpcode::UNM => 18,
            VMOpcode::NOT => 19,
            VMOpcode::LEN => 20,
            VMOpcode::CONCAT => 21,
            VMOpcode::JMP => 22,
            VMOpcode::EQ => 23,
            VMOpcode::LT => 24,
            VMOpcode::LE => 25,
            VMOpcode::TEST => 26,
            VMOpcode::TESTSET => 27,
            VMOpcode::CALL => 28,
            VMOpcode::TAILCALL => 29,
            VMOpcode::RETURN => 30,
            VMOpcode::FORLOOP => 31,
            VMOpcode::FORPREP => 32,
            VMOpcode::TFORLOOP => 33,
            VMOpcode::SETLIST => 34,
            VMOpcode::CLOSE => 35,
            VMOpcode::CLOSURE => 36,
            VMOpcode::VARARG => 37,
        }
    }

    /// The operand fields of the opcode, in order.
    pub open spec fn shape(self) -> Seq<InstParamType> {
        let (a, b, c, bx, sbx) = (
            InstParamType::A,
            InstParamType::B,
            InstParamType::C,
            InstParamType::Bx,
            InstParamType::sBx,
        );
        match self {
            VMOpcode::MOVE | VMOpcode::LOADNIL | VMOpcode::GETUPVAL | VMOpcode::SETUPVAL
            | VMOpcode::UNM | VMOpcode::NOT | VMOpcode::LEN | VMOpcode::RETURN
            | VMOpcode::VARARG => seq![a, b],
            VMOpcode::LOADK | VMOpcode::GETGLOBAL | VMOpcode::SETGLOBAL
            | VMOpcode::CLOSURE => seq![a, bx],
            VMOpcode::JMP => seq![sbx],
            VMOpcode::TEST | VMOpcode::TFORLOOP => seq![a, c],
            VMOpcode::FORLOOP | VMOpcode::FORPREP => seq![a, sbx],
            VMOpcode::CLOSE => seq![a],
            _ => seq![a, b, c],
        }
    }

    /// Maps an opcode number to its opcode; numbers from `OPCODE_COUNT` on have none.
    pub fn from_num(n: u32) -> (r: Result<VMOpcode, ChunkError>)
        ensures
            n < OPCODE_COUNT <==> r is Ok,
            r matches Ok(op) ==> op.code() == n,
            r matches Err(e) ==> e == ChunkError::UnknownOpcode(n),
    {
        match n {
            0 => Ok(VMOpcode::MOVE),
            1 => Ok(VMOpcode::LOADK),
            2 => Ok(VMOpcode::LOADBOOL),
            3 => Ok(VMOpcode::LOADNIL),
            4 => Ok(VMOpcode::GETUPVAL),
            5 => Ok(VMOpcode::GETGLOBAL),
            6 => Ok(VMOpcode::GETTABLE),
            7 => Ok(VMOpcode::SETGLOBAL),
            8 => Ok(VMOpcode::SETUPVAL),
            9 => Ok(VMOpcode::SETTABLE),
            10 => Ok(VMOpcode::NEWTABLE),
            11 => Ok(VMOpcode::SELF),
            12 => Ok(VMOpcode::ADD),
            13 => Ok(VMOpcode::SUB),
            14 => Ok(VMOpcode::MUL),
            15 => Ok(VMOpcode::DIV),
            16 => Ok(VMOpcode::MOD),
            17 => Ok(VMOpcode::POW),
            18 => Ok(VMOpcode::UNM),
            19 => Ok(VMOpcode::NOT),
            20 => Ok(VMOpcode::LEN),
            21 => Ok(VMOpcode::CONCAT),
            22 => Ok(VMOpcode::JMP),
            23 => Ok(VMOpcode::EQ),
            24 => Ok(VMOpcode::LT),
            25 => Ok(VMOpcode::LE),
            26 => Ok(VMOpcode::TEST),
            27 => Ok(VMOpcode::TESTSET),
            28 => Ok(VMOpcode::CALL),
            29 => Ok(VMOpcode::TAILCALL),
            30 => Ok(VMOpcode::RETURN),
            31 => Ok(VMOpcode::FORLOOP),
            32 => Ok(VMOpcode::FORPREP),
            33 => Ok(VMOpcode::TFORLOOP),
            34 => Ok(VMOpcode::SETLIST),
            35 => Ok(VMOpcode::CLOSE),
            36 => Ok(VMOpcode::CLOSURE),
            37 => Ok(VMOpcode::VARARG),
            _ => Err(ChunkError::UnknownOpcode(n)),
        }
    }

    /// The operand fields of the opcode, in decoding order.
    pub fn param_types(&self) -> (r: Vec<InstParamType>)
        ensures
            r@ == self.shape(),
    {
        let (a, b, c, bx, sbx) = (
            InstParamType::A,
            InstParamType::B,
            InstParamType::C,
            InstParamType::Bx,
            InstParamType::sBx,
        );
        let r = match self {
            VMOpcode::MOVE | VMOpcode::LOADNIL | VMOpcode::GETUPVAL | VMOpcode::SETUPVAL
            | VMOpcode::UNM | VMOpcode::NOT | VMOpcode::LEN | VMOpcode::RETURN
            | VMOpcode::VARARG => vec![a, b],
            VMOpcode::LOADK | VMOpcode::GETGLOBAL | VMOpcode::SETGLOBAL
            | VMOpcode::CLOSURE => vec![a, bx],
            VMOpcode::JMP => vec![sbx],
            VMOpcode::TEST | VMOpcode::TFORLOOP => vec![a, c],
            VMOpcode::FORLOOP | VMOpcode::FORPREP => vec![a, sbx],
            VMOpcode::CLOSE => vec![a],
            _ => vec![a, b, c],
        };
        assert(r@ =~= self.shape());
        r
    }
}

impl InstParamType {
    /// The operand that this field holds in word `w`.
    pub open spec fn extract(self, w: u32) -> InstParam {
        match self {
            InstParamType::A => InstParam::A(field_a(w)),
            InstParamType::B => InstParam::B(field_b(w)),
            InstParamType::C => InstParam::C(field_c(w)),
            InstParamType::Bx => InstParam::Bx(field_bx(w)),
            InstParamType::sBx => InstParam::sBx(field_sbx(w) as i32),
        }
    }
}

/// The operands of word `w` for the fields `shape`, in order.
pub open spec fn operands_of(shape: Seq<InstParamType>, w: u32) -> Seq<InstParam> {
    shape.map_values(|t: InstParamType| t.extract(w))
}

impl InstParam {
    /// Whether the operand is unsigned (every kind but sBx).
    pub open spec fn is_unsigned(self) -> bool {
        !(self is sBx)
    }

    /// The number held by an unsigned operand.
    pub open spec fn num(self) -> u32 {
        match self {
            InstParam::A(v) => v,
            InstParam::B(v) => v,
            InstParam::C(v) => v,
            InstParam::Bx(v) => v,
            InstParam::sBx(_) => 0,
        }
    }

    /// Masks and shifts the field `t` out of the word `num`.
    pub fn parse(t: InstParamType, num: u32) -> (r: InstParam)
        ensures
            r == t.extract(num),
    {
        match t {
            InstParamType::A => {
                assert((num & MASK_A) >> A_SHIFT == (num >> 6) & 0xff) by (bit_vector);
                InstParam::A((num & MASK_A) >> A_SHIFT)
            },
            InstParamType::B => {
                assert((num & MASK_B) >> B_SHIFT == num >> 23) by (bit_vector);
                InstParam::B((num & MASK_B) >> B_SHIFT)
            },
            InstParamType::C => {
                assert((num & MASK_C) >> C_SHIFT == (num >> 14) & 0x1ff) by (bit_vector);
                InstParam::C((num & MASK_C) >> C_SHIFT)
            },
            InstParamType::Bx => {
                assert((num & MASK_BX) >> BX_SHIFT == num >> 14) by (bit_vector);
                InstParam::Bx((num & MASK_BX) >> BX_SHIFT)
            },
            InstParamType::sBx => {
                assert((num & MASK_BX) >> BX_SHIFT == num >> 14) by (bit_vector);
                assert(num >> 14 <= 0x3ffff) by (bit_vector);
                let bx = (num & MASK_BX) >> BX_SHIFT;
                InstParam::sBx((bx as i32) - (SBX_BIAS as i32))
            },
        }
    }

    /// The number held by an operand; a signed offset has none to give.
    pub fn get_num_val(&self) -> (r: u32)
        requires
            self.is_unsigned(),
        ensures
            r == self.num(),
    {
        match self {
            InstParam::A(v) => *v,
            InstParam::B(v) => *v,
            InstParam::C(v) => *v,
            InstParam::Bx(v) => *v,
            InstParam::sBx(v) => 0,
        }
    }

    /// The signed offset held by an sBx operand, or `None` for any other kind.
    pub fn get_offset(&self) -> (r: Option<i32>)
        ensures
            r == (match *self {
                InstParam::sBx(v) => Some(v),
                _ => None,
            }),
    {
        match self {
            InstParam::sBx(v) => Some(*v),
            _ => None,
        }
    }
}

/// One decoded instruction: its opcode and exactly the operands its shape lists.
#[derive(Clone, Debug)]
pub struct VMInst {
    pub opcode: VMOpcode,
    pub params: Vec<InstParam>,
}

/// What a word decodes to: an unknown opcode number, or the opcode with its operands.
pub open spec fn decode_word(w: u32) -> Result<(VMOpcode, Seq<InstParam>), ChunkError> {
    if field_op(w) < OPCODE_COUNT {
        let op = choose|op: VMOpcode| op.code() == field_op(w);
        Ok((op, operands_of(op.shape(), w)))
    } else {
        Err(ChunkError::UnknownOpcode(field_op(w)))
    }
}

impl VMInst {
    /// The opcode and operands of the instruction.
    pub open spec fn spec_view(&self) -> (VMOpcode, Seq<InstParam>) {
        (self.opcode, self.params@)
    }

    /// Decodes one instruction word.
    pub fn from_u32(num: u32) -> (r: Result<VMInst, ChunkError>)
        ensures
            field_op(num) < OPCODE_COUNT <==> r is Ok,
            r matches Ok(i) ==> i.opcode.code() == field_op(num) && i.params@ == operands_of(
                i.opcode.shape(),
                num,
            ),
            r matches Err(e) ==> e == ChunkError::UnknownOpcode(field_op(num)),
            r matches Ok(i) ==> decode_word(num) == Ok::<(VMOpcode, Seq<InstParam>), ChunkError>(
                i.spec_view(),
            ),
            r matches Err(e) ==> decode_word(num) == Err::<(VMOpcode, Seq<InstParam>), ChunkError>(
                e,
            ),
    {
        assert(num & MASK_OP == num & 0x3f) by (bit_vector);
        let opcode = VMOpcode::from_num(num & MASK_OP)?;
        proof {
            let op = choose|op: VMOpcode| op.code() == field_op(num);
            lemma_code_injective(op, opcode);
        }
        let types = opcode.param_types();
        let mut params: Vec<InstParam> = Vec::new();
        let mut i: usize = 0;
        while i < types.len()
            invariant
                types@ == opcode.shape(),
                i <= types@.len(),
                params@ == operands_of(types@.subrange(0, i as int), num),
            decreases types@.len() - i,
        {
            params.push(InstParam::parse(types[i], num));
            i += 1;
            assert(types@.subrange(0, i as int) == types@.subrange(0, i - 1).push(types@[i - 1]));
            assert(params@ =~= operands_of(types@.subrange(0, i as int), num));
        }
        assert(types@.subrange(0, i as int) == types@);
        Ok(VMInst { opcode, params })
    }
}

/// Two opcodes with the same code are the same opcode.
pub proof fn lemma_code_injective(a: VMOpcode, b: VMOpcode)
    requires
        a.code() == b.code(),
    ensures
        a == b,
{
}

} // verus!
