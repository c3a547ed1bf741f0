use vstd::prelude::*;
use crate::registers::Gpr;
use crate::width::Width;

verus! {

/// The longest x86 instruction, in bytes.
pub const MAX_INSTRUCTION_LEN: usize = 15;

/// Legacy and REX prefixes seen before an opcode.
#[derive(Clone, Copy, Debug, PartialEq, Eq, Structural)]
pub struct Prefixes {
    pub operand_size_override: bool,
    pub rep: Option<RepPrefix>,
    pub segment: Option<SegmentPrefix>,
    pub rex: Option<Rex>,
}

impl Prefixes {
    /// No prefix at all.
    pub open spec fn spec_none() -> Prefixes {
        Prefixes { operand_size_override: false, rep: None, segment: None, rex: None }
    }
}

impl Default for Prefixes {
    fn default() -> (r: Prefixes)
        ensures
            r == Prefixes::spec_none(),
    {
        Prefixes { operand_size_override: false, rep: None, segment: None, rex: None }
    }
}

#[derive(Clone, Copy, Debug, PartialEq, Eq, Structural)]
pub enum RepPrefix {
    Rep,
    Repne,
}

#[derive(Clone, Copy, Debug, PartialEq, Eq, Structural)]
pub enum SegmentPrefix {
    Cs,
    Ss,
    Ds,
    Es,
    Fs,
    Gs,
}

/// The four bits of a REX prefix byte.
#[derive(Clone, Copy, Debug, PartialEq, Eq, Structural)]
pub struct Rex {
    pub w: bool,
    pub r: bool,
    pub x: bool,
    pub b: bool,
}

impl Rex {
    /// The REX bits of a byte `0x40..=0x4f`: W, R, X and B are bits 3 to 0.
    pub open spec fn spec_from_byte(byte: u8) -> Rex {
        Rex {
            w: byte & 0b1000 != 0,
            r: byte & 0b0100 != 0,
            x: byte & 0b0010 != 0,
            b: byte & 0b0001 != 0,
        }
    }

    fn from_byte(byte: u8) -> (r: Rex)
        ensures
            r == Rex::spec_from_byte(byte),
    {
        Rex {
            w: (byte & 0b1000) != 0,
            r: (byte & 0b0100) != 0,
            x: (byte & 0b0010) != 0,
            b: (byte & 0b0001) != 0,
        }
    }
}

/// A decoded instruction together with its raw bytes.
#[derive(Clone, Copy, Debug, PartialEq, Eq)]
pub struct Instruction {
    pub len: u8,
    pub bytes: [u8; 15],
    pub prefixes: Prefixes,
    pub opcode: u8,
    pub operation: Operation,
}

impl Instruction {
    pub fn operation_code(&self) -> (r: u32)
        ensures
            r == self.operation.spec_code(),
    {
        self.operation.code()
    }
}

/// The operations the decoder knows.
#[derive(Clone, Copy, Debug, PartialEq, Eq, Structural)]
pub enum Operation {
    Nop,
    Ret,
    Int3,
    Hlt,
    Syscall,
    MovImm { dst: Gpr, width: Width, imm: u64 },
    Push { src: Gpr },
    Pop { dst: Gpr },
    AddAccumulatorImm { width: Width, imm32: u32 },
    JmpRel32 { rel: i32 },
    OutImm8Al { port: u8 },
}

impl Operation {
    /// A stable number for each kind of operation, 1 to 11 in declaration order.
    pub open spec fn spec_code(&self) -> u32 {
        match self {
            Operation::Nop => 1,
            Operation::Ret => 2,
            Operation::Int3 => 3,
            Operation::Hlt => 4,
            Operation::Syscall => 5,
            Operation::MovImm { .. } => 6,
            Operation::Push { .. } => 7,
            Operation::Pop { .. } => 8,
            Operation::AddAccumulatorImm { .. } => 9,
            Operation::JmpRel32 { .. } => 10,
            Operation::OutImm8Al { .. } => 11,
        }
    }

    pub fn code(&self) -> (r: u32)
        ensures
            r == self.spec_code(),
    {
        match self {
            Operation::Nop => 1,
            Operation::Ret => 2,
            Operation::Int3 => 3,
            Operation::Hlt => 4,
            Operation::Syscall => 5,
            Operation::MovImm { .. } => 6,
            Operation::Push { .. } => 7,
            Operation::Pop { .. } => 8,
            Operation::AddAccumulatorImm { .. } => 9,
            Operation::JmpRel32 { .. } => 10,
            Operation::OutImm8Al { .. } => 11,
        }
    }
}

#[derive(Clone, Copy, Debug, PartialEq, Eq, Structural)]
pub enum DecodeError {
    EmptyInput,
    Incomplete,
    TooLong,
    UnsupportedOpcode { opcode: u8, offset: u8 },
}

/// Whether `b` is one of the prefix bytes the decoder accepts.
pub open spec fn is_prefix_byte(b: u8) -> bool {
    b == 0x66 || b == 0xf3 || b == 0xf2 || b == 0x2e || b == 0x36 || b == 0x3e || b == 0x26
        || b == 0x64 || b == 0x65 || (0x40 <= b && b <= 0x4f)
}

/// The prefixes after one more prefix byte; a later prefix of a group replaces an
/// earlier one.
pub open spec fn apply_prefix(p: Prefixes, b: u8) -> Prefixes {
    if b == 0x66 {
        Prefixes { operand_size_override: true, ..p }
    } else if b == 0xf3 {
        Prefixes { rep: Some(RepPrefix::Rep), ..p }
    } else if b == 0xf2 {
        Prefixes { rep: Some(RepPrefix::Repne), ..p }
    } else if b == 0x2e {
        Prefixes { segment: Some(SegmentPrefix::Cs), ..p }
    } else if b == 0x36 {
        Prefixes { segment: Some(SegmentPrefix::Ss), ..p }
    } else if b == 0x3e {
        Prefixes { segment: Some(SegmentPrefix::Ds), ..p }
    } else if b == 0x26 {
        Prefixes { segment: Some(SegmentPrefix::Es), ..p }
    } else if b == 0x64 {
        Prefixes { segment: Some(SegmentPrefix::Fs), ..p }
    } else if b == 0x65 {
        Prefixes { segment: Some(SegmentPrefix::Gs), ..p }
    } else {
        Prefixes { rex: Some(Rex::spec_from_byte(b)), ..p }
    }
}

/// The prefixes given by the first `n` bytes of `input`.
pub open spec fn prefixes_of(input: Seq<u8>, n: nat) -> Prefixes
    decreases n,
{
    if n == 0 {
        Prefixes::spec_none()
    } else {
        apply_prefix(prefixes_of(input, (n - 1) as nat), input[n - 1])
    }
}

/// Where the prefix scan that starts at `o` stops: at the end of the input, at the
/// longest instruction length, or at the first byte that is not a prefix.
pub open spec fn prefix_stop(input: Seq<u8>, o: nat) -> nat
    decreases 15 - o,
{
    if o >= input.len() || o >= 15 || !is_prefix_byte(input[o as int]) {
        o
    } else {
        prefix_stop(input, o + 1)
    }
}

/// The little-endian 32-bit value of the four bytes of `s` at `o`.
pub open spec fn le_u32(s: Seq<u8>, o: int) -> u32 {
    (s[o] as int + s[o + 1] as int * 0x100 + s[o + 2] as int * 0x1_0000 + s[o + 3] as int
        * 0x100_0000) as u32
}

/// The little-endian 64-bit value of the eight bytes of `s` at `o`.
pub open spec fn le_u64(s: Seq<u8>, o: int) -> u64 {
    (le_u32(s, o) as int + le_u32(s, o + 4) as int * 0x1_0000_0000) as u64
}

/// Operand width of accumulator and move-immediate forms: 64 bits under REX.W,
/// 32 bits otherwise.
pub open spec fn spec_accumulator_width(p: Prefixes) -> Width {
    match p.rex {
        Some(rex) => if rex.w {
            Width::U64
        } else {
            Width::U32
        },
        None => Width::U32,
    }
}

/// Whether REX.B is present and set.
pub open spec fn spec_rex_b(p: Prefixes) -> bool {
    match p.rex {
        Some(rex) => rex.b,
        None => false,
    }
}

/// The register named by the low three opcode bits, extended by REX.B.
pub open spec fn opcode_register(opcode: u8, p: Prefixes) -> Gpr {
    Gpr::spec_from_number(Gpr::spec_low3_number(opcode & 0b111, spec_rex_b(p)) as int)
}

/// Whether the operand-size prefix would change the operand size of `opcode`: it is
/// present without REX.W, before `add eax, imm32`, `push`, `pop`, `mov r, imm`, `ret` or
/// `jmp rel32`. Only the default sizes of these are implemented, so such an encoding
/// is refused.
pub open spec fn spec_operand_size_changes(p: Prefixes, opcode: u8) -> bool {
    &&& p.operand_size_override
    &&& spec_accumulator_width(p) == Width::U32
    &&& (opcode == 0x05 || (0x50 <= opcode && opcode <= 0x5f) || (0xb8 <= opcode && opcode <= 0xbf)
        || opcode == 0xc3 || opcode == 0xe9)
}

/// Decoding from the opcode at `at` on: the offset just past the instruction and its
/// operation, or the error.
pub open spec fn decode_operation(input: Seq<u8>, at: nat, p: Prefixes) -> Result<
    (nat, Operation),
    DecodeError,
> {
    let opcode = input[at as int];
    let o = at + 1;
    if spec_operand_size_changes(p, opcode) {
        Err(DecodeError::UnsupportedOpcode { opcode, offset: at as u8 })
    } else if opcode == 0x90 {
        Ok((o, Operation::Nop))
    } else if opcode == 0xc3 {
        Ok((o, Operation::Ret))
    } else if opcode == 0xcc {
        Ok((o, Operation::Int3))
    } else if opcode == 0xf4 {
        Ok((o, Operation::Hlt))
    } else if opcode == 0x0f {
        if o >= input.len() {
            Err(DecodeError::Incomplete)
        } else if input[o as int] == 0x05 {
            Ok((o + 1, Operation::Syscall))
        } else {
            Err(DecodeError::UnsupportedOpcode { opcode: input[o as int], offset: o as u8 })
        }
    } else if opcode == 0x05 {
        if o + 4 > input.len() {
            Err(DecodeError::Incomplete)
        } else {
            Ok(
                (
                    o + 4,
                    Operation::AddAccumulatorImm {
                        width: spec_accumulator_width(p),
                        imm32: le_u32(input, o as int),
                    },
                ),
            )
        }
    } else if 0x50 <= opcode && opcode <= 0x57 {
        Ok((o, Operation::Push { src: opcode_register(opcode, p) }))
    } else if 0x58 <= opcode && opcode <= 0x5f {
        Ok((o, Operation::Pop { dst: opcode_register(opcode, p) }))
    } else if 0xb8 <= opcode && opcode <= 0xbf {
        let width = spec_accumulator_width(p);
        if width == Width::U64 {
            if o + 8 > input.len() {
                Err(DecodeError::Incomplete)
            } else {
                Ok(
                    (
                        o + 8,
                        Operation::MovImm {
                            dst: opcode_register(opcode, p),
                            width,
                            imm: le_u64(input, o as int),
                        },
                    ),
                )
            }
        } else {
            if o + 4 > input.len() {
                Err(DecodeError::Incomplete)
            } else {
                Ok(
                    (
                        o + 4,
                        Operation::MovImm {
                            dst: opcode_register(opcode, p),
                            width,
                            imm: le_u32(input, o as int) as u64,
                        },
                    ),
                )
            }
        }
    } else if opcode == 0xe9 {
        if o + 4 > input.len() {
            Err(DecodeError::Incomplete)
        } else {
            Ok((o + 4, Operation::JmpRel32 { rel: le_u32(input, o as int) as i32 }))
        }
    } else if opcode == 0xe6 {
        if o >= input.len() {
            Err(DecodeError::Incomplete)
        } else {
            Ok((o + 1, Operation::OutImm8Al { port: input[o as int] }))
        }
    } else {
        Err(DecodeError::UnsupportedOpcode { opcode, offset: at as u8 })
    }
}

/// The outcome of decoding one instruction from the start of `input`: its length,
/// prefixes, opcode and operation, or the error.
pub open spec fn spec_decode(input: Seq<u8>) -> Result<(nat, Prefixes, u8, Operation), DecodeError> {
    if input.len() == 0 {
        Err(DecodeError::EmptyInput)
    } else {
        let stop = prefix_stop(input, 0);
        if stop >= input.len() {
            Err(DecodeError::Incomplete)
        } else if stop >= 15 {
            Err(DecodeError::TooLong)
        } else {
            let p = prefixes_of(input, stop);
            match decode_operation(input, stop, p) {
                Err(e) => Err(e),
                Ok((end, op)) => if end > 15 {
                    Err(DecodeError::TooLong)
                } else {
                    Ok((end, p, input[stop as int], op))
                },
            }
        }
    }
}

/// Whether `inst` is the instruction that `spec_decode` finds at the start of `input`:
/// its fields agree, and its byte buffer holds the instruction's bytes followed by zeros.
pub open spec fn decoded_from(inst: Instruction, input: Seq<u8>) -> bool {
    &&& spec_decode(input) matches Ok((len, p, opcode, op))
    &&& inst.len == len
    &&& inst.prefixes == p
    &&& inst.opcode == opcode
    &&& inst.operation == op
    &&& inst.bytes@ == input.take(len as int) + Seq::new((15 - len) as nat, |i: int| 0u8)
}

fn is_prefix(b: u8) -> (r: bool)
    ensures
        r == is_prefix_byte(b),
{
    b == 0x66 || b == 0xf3 || b == 0xf2 || b == 0x2e || b == 0x36 || b == 0x3e || b == 0x26
        || b == 0x64 || b == 0x65 || (0x40 <= b && b <= 0x4f)
}

fn add_prefix(p: Prefixes, b: u8) -> (r: Prefixes)
    requires
        is_prefix_byte(b),
    ensures
        r == apply_prefix(p, b),
{
    let mut p = p;
    match b {
        0x66 => p.operand_size_override = true,
        0xf3 => p.rep = Some(RepPrefix::Rep),
        0xf2 => p.rep = Some(RepPrefix::Repne),
        0x2e => p.segment = Some(SegmentPrefix::Cs),
        0x36 => p.segment = Some(SegmentPrefix::Ss),
        0x3e => p.segment = Some(SegmentPrefix::Ds),
        0x26 => p.segment = Some(SegmentPrefix::Es),
        0x64 => p.segment = Some(SegmentPrefix::Fs),
        0x65 => p.segment = Some(SegmentPrefix::Gs),
        _ => p.rex = Some(Rex::from_byte(b)),
    }
    p
}

fn accumulator_width(prefixes: Prefixes) -> (r: Width)
    ensures
        r == spec_accumulator_width(prefixes),
{
    match prefixes.rex {
        Some(rex) => if rex.w {
            Width::U64
        } else {
            Width::U32
        },
        None => Width::U32,
    }
}

fn operand_size_changes(prefixes: Prefixes, opcode: u8) -> (r: bool)
    ensures
        r == spec_operand_size_changes(prefixes, opcode),
{
    prefixes.operand_size_override && match accumulator_width(prefixes) {
        Width::U32 => true,
        _ => false,
    } && (opcode == 0x05 || (0x50 <= opcode && opcode <= 0x5f) || (0xb8 <= opcode && opcode
        <= 0xbf) || opcode == 0xc3 || opcode == 0xe9)
}

fn rex_b(prefixes: Prefixes) -> (r: bool)
    ensures
        r == spec_rex_b(prefixes),
{
    match prefixes.rex {
        Some(rex) => rex.b,
        None => false,
    }
}

fn read_u32(input: &[u8], offset: usize) -> (r: Result<u32, DecodeError>)
    requires
        offset <= 32,
    ensures
        offset + 4 > input@.len() ==> r == Err::<u32, DecodeError>(DecodeError::Incomplete),
        offset + 4 <= input@.len() ==> r == Ok::<u32, DecodeError>(le_u32(input@, offset as int)),
{
    if offset + 4 > input.len() {
        return Err(DecodeError::Incomplete);
    }
    let b0 = input[offset];
    let b1 = input[offset + 1];
    let b2 = input[offset + 2];
    let b3 = input[offset + 3];
    let v: u32 = (b0 as u32) | ((b1 as u32) << 8) | ((b2 as u32) << 16) | ((b3 as u32) << 24);
    proof {
        assert((b0 as u32) | ((b1 as u32) << 8) | ((b2 as u32) << 16) | ((b3 as u32) << 24)
            == b0 as u32 + (b1 as u32) * 0x100 + (b2 as u32) * 0x1_0000 + (b3 as u32)
            * 0x100_0000) by (bit_vector);
    }
    Ok(v)
}

fn read_u64(input: &[u8], offset: usize) -> (r: Result<u64, DecodeError>)
    requires
        offset <= 16,
    ensures
        offset + 8 > input@.len() ==> r == Err::<u64, DecodeError>(DecodeError::Incomplete),
        offset + 8 <= input@.len() ==> r == Ok::<u64, DecodeError>(le_u64(input@, offset as int)),
{
    if offset + 8 > input.len() {
        return Err(DecodeError::Incomplete);
    }
    let lo = match read_u32(input, offset) {
        Ok(v) => v,
        Err(e) => return Err(e),
    };
    let hi = match read_u32(input, offset + 4) {
        Ok(v) => v,
        Err(e) => return Err(e),
    };
    let v: u64 = (lo as u64) | ((hi as u64) << 32);
    proof {
        assert((lo as u64) | ((hi as u64) << 32) == lo as u64 + (hi as u64) * 0x1_0000_0000)
            by (bit_vector);
    }
    Ok(v)
}

/// Decodes the instruction at the start of `input`.
pub fn decode_one(input: &[u8]) -> (r: Result<Instruction, DecodeError>)
    ensures
        match r {
            Ok(inst) => decoded_from(inst, input@),
            Err(e) => spec_decode(input@) == Err::<(nat, Prefixes, u8, Operation), DecodeError>(e),
        },
        r matches Ok(inst) ==> 1 <= inst.len <= MAX_INSTRUCTION_LEN,
{
    if input.len() == 0 {
        return Err(DecodeError::EmptyInput);
    }
    let mut offset: usize = 0;
    let mut prefixes = Prefixes::default();
    while offset < input.len() && offset < MAX_INSTRUCTION_LEN && is_prefix(input[offset])
        invariant
            offset <= MAX_INSTRUCTION_LEN,
            prefix_stop(input@, offset as nat) == prefix_stop(input@, 0),
            prefixes == prefixes_of(input@, offset as nat),
        decreases MAX_INSTRUCTION_LEN - offset,
    {
        prefixes = add_prefix(prefixes, input[offset]);
        offset += 1;
        proof {
            assert(input@.take(offset as int).last() == input@[offset - 1]);
        }
    }
    if offset >= input.len() {
        return Err(DecodeError::Incomplete);
    }
    if offset >= MAX_INSTRUCTION_LEN {
        return Err(DecodeError::TooLong);
    }
    let ghost stop = offset as nat;
    assert(prefix_stop(input@, offset as nat) == offset);
    let opcode_offset = offset;
    let opcode = input[offset];
    if operand_size_changes(prefixes, opcode) {
        return Err(DecodeError::UnsupportedOpcode { opcode, offset: opcode_offset as u8 });
    }
    offset += 1;
    let operation = match opcode {
        0x90 => Operation::Nop,
        0xc3 => Operation::Ret,
        0xcc => Operation::Int3,
        0xf4 => Operation::Hlt,
        0x0f => {
            if offset >= input.len() {
                return Err(DecodeError::Incomplete);
            }
            let subopcode = input[offset];
            offset += 1;
            match subopcode {
                0x05 => Operation::Syscall,
                _ => {
                    return Err(
                        DecodeError::UnsupportedOpcode { opcode: subopcode, offset: (offset - 1) as u8 },
                    );
                },
            }
        },
        0x05 => {
            let imm32 = match read_u32(input, offset) {
                Ok(v) => v,
                Err(e) => return Err(e),
            };
            offset += 4;
            Operation::AddAccumulatorImm { width: accumulator_width(prefixes), imm32 }
        },
        0x50..=0x57 => Operation::Push { src: Gpr::from_low3(opcode & 0b111, rex_b(prefixes)) },
        0x58..=0x5f => Operation::Pop { dst: Gpr::from_low3(opcode & 0b111, rex_b(prefixes)) },
        0xb8..=0xbf => {
            let width = accumulator_width(prefixes);
            let imm = match width {
                Width::U64 => {
                    let value = match read_u64(input, offset) {
                        Ok(v) => v,
                        Err(e) => return Err(e),
                    };
                    offset += 8;
                    value
                },
                _ => {
                    let value = match read_u32(input, offset) {
                        Ok(v) => v,
                        Err(e) => return Err(e),
                    };
                    offset += 4;
                    value as u64
                },
            };
            Operation::MovImm { dst: Gpr::from_low3(opcode & 0b111, rex_b(prefixes)), width, imm }
        },
        0xe9 => {
            let rel = match read_u32(input, offset) {
                Ok(v) => v,
                Err(e) => return Err(e),
            };
            offset += 4;
            Operation::JmpRel32 { rel: rel as i32 }
        },
        0xe6 => {
            if offset >= input.len() {
                return Err(DecodeError::Incomplete);
            }
            let port = input[offset];
            offset += 1;
            Operation::OutImm8Al { port }
        },
        _ => {
            return Err(DecodeError::UnsupportedOpcode { opcode, offset: opcode_offset as u8 });
        },
    };
    assert(decode_operation(input@, stop, prefixes) == Ok::<(nat, Operation), DecodeError>(
        (offset as nat, operation),
    ));
    if offset > MAX_INSTRUCTION_LEN {
        return Err(DecodeError::TooLong);
    }
    let mut bytes = [0u8; 15];
    let mut i: usize = 0;
    while i < offset
        invariant
            offset <= MAX_INSTRUCTION_LEN,
            offset <= input@.len(),
            i <= offset,
            forall|j: int| 0 <= j < i ==> bytes@[j] == input@[j],
            forall|j: int| i <= j < 15 ==> bytes@[j] == 0,
        decreases offset - i,
    {
        bytes[i] = input[i];
        i += 1;
    }
    assert(bytes@ =~= input@.take(offset as int) + Seq::new((15 - offset) as nat, |j: int| 0u8));
    Ok(Instruction { len: offset as u8, bytes, prefixes, opcode, operation })
}

} // verus!
