use vstd::prelude::*;

verus! {

/// The machine's native value: stack entries, immediates and jump targets.
pub type Word = i16;

/// The closed set of instruction kinds.
#[derive(Debug, Clone, Copy, PartialEq, Eq, Structural)]
pub enum OpKind {
    Push,
    Pop,
    Echo,
    Add,
    Sub,
    Mul,
    Div,
    Goto,
    Goif,
    Copy,
    Halt,
}

impl OpKind {
    /// The one-byte encoding of the kind.
    pub open spec fn code(self) -> u8 {
        match self {
            OpKind::Push => 0x00,
            OpKind::Pop => 0x01,
            OpKind::Echo => 0x02,
            OpKind::Add => 0x03,
            OpKind::Sub => 0x04,
            OpKind::Mul => 0x05,
            OpKind::Div => 0x06,
            OpKind::Goto => 0x07,
            OpKind::Goif => 0x08,
            OpKind::Copy => 0x09,
            OpKind::Halt => 0x0a,
        }
    }

    /// The kind encoded by a byte, if any.
    pub open spec fn decode(b: u8) -> Option<OpKind> {
        if b == 0x00 {
            Some(OpKind::Push)
        } else if b == 0x01 {
            Some(OpKind::Pop)
        } else if b == 0x02 {
            Some(OpKind::Echo)
        } else if b == 0x03 {
            Some(OpKind::Add)
        } else if b == 0x04 {
            Some(OpKind::Sub)
        } else if b == 0x05 {
            Some(OpKind::Mul)
        } else if b == 0x06 {
            Some(OpKind::Div)
        } else if b == 0x07 {
            Some(OpKind::Goto)
        } else if b == 0x08 {
            Some(OpKind::Goif)
        } else if b == 0x09 {
            Some(OpKind::Copy)
        } else if b == 0x0a {
            Some(OpKind::Halt)
        } else {
            None
        }
    }

    /// Whether an instruction of this kind carries a word operand.
    pub open spec fn spec_has_operand(self) -> bool {
        self is Push || self is Goto || self is Goif
    }

    /// The number of bytes an instruction of this kind occupies in a program.
    pub open spec fn size(self) -> nat {
        if self.spec_has_operand() {
            3
        } else {
            1
        }
    }

    /// The upper-case mnemonic of the kind.
    pub open spec fn mnemonic(self) -> Seq<char> {
        match self {
            OpKind::Push => seq!['P', 'U', 'S', 'H'],
            OpKind::Pop => seq!['P', 'O', 'P'],
            OpKind::Echo => seq!['E', 'C', 'H', 'O'],
            OpKind::Add => seq!['A', 'D', 'D'],
            OpKind::Sub => seq!['S', 'U', 'B'],
            OpKind::Mul => seq!['M', 'U', 'L'],
            OpKind::Div => seq!['D', 'I', 'V'],
            OpKind::Goto => seq!['G', 'O', 'T', 'O'],
            OpKind::Goif => seq!['G', 'O', 'I', 'F'],
            OpKind::Copy => seq!['C', 'O', 'P', 'Y'],
            OpKind::Halt => seq!['H', 'A', 'L', 'T'],
        }
    }

    /// The kind whose mnemonic is exactly `s`, if any.
    pub open spec fn parse_mnemonic(s: Seq<char>) -> Option<OpKind> {
        if s == OpKind::Push.mnemonic() {
            Some(OpKind::Push)
        } else if s == OpKind::Pop.mnemonic() {
            Some(OpKind::Pop)
        } else if s == OpKind::Echo.mnemonic() {
            Some(OpKind::Echo)
        } else if s == OpKind::Add.mnemonic() {
            Some(OpKind::Add)
        } else if s == OpKind::Sub.mnemonic() {
            Some(OpKind::Sub)
        } else if s == OpKind::Mul.mnemonic() {
            Some(OpKind::Mul)
        } else if s == OpKind::Div.mnemonic() {
            Some(OpKind::Div)
        } else if s == OpKind::Goto.mnemonic() {
            Some(OpKind::Goto)
        } else if s == OpKind::Goif.mnemonic() {
            Some(OpKind::Goif)
        } else if s == OpKind::Copy.mnemonic() {
            Some(OpKind::Copy)
        } else if s == OpKind::Halt.mnemonic() {
            Some(OpKind::Halt)
        } else {
            None
        }
    }

    pub fn has_operand(&self) -> (r: bool)
        ensures
            r == self.spec_has_operand(),
    {
        match self {
            OpKind::Push => true,
            OpKind::Pop => false,
            OpKind::Echo => false,
            OpKind::Add => false,
            OpKind::Sub => false,
            OpKind::Mul => false,
            OpKind::Div => false,
            OpKind::Goto => true,
            OpKind::Goif => true,
            OpKind::Copy => false,
            OpKind::Halt => false,
        }
    }

    /// Bytes taken by one instruction of this kind; both assembler passes count with it.
    pub fn instruction_size(&self) -> (r: usize)
        ensures
            r == self.size(),
    {
        if self.has_operand() {
            3
        } else {
            1
        }
    }

    pub fn opcode(&self) -> (r: u8)
        ensures
            r == self.code(),
    {
        match self {
            OpKind::Push => 0x00,
            OpKind::Pop => 0x01,
            OpKind::Echo => 0x02,
            OpKind::Add => 0x03,
            OpKind::Sub => 0x04,
            OpKind::Mul => 0x05,
            OpKind::Div => 0x06,
            OpKind::Goto => 0x07,
            OpKind::Goif => 0x08,
            OpKind::Copy => 0x09,
            OpKind::Halt => 0x0a,
        }
    }

    /// Decodes an opcode byte; `None` for a byte that encodes no kind.
    pub fn from_byte(b: u8) -> (r: Option<OpKind>)
        ensures
            r == OpKind::decode(b),
    {
        match b {
            0x00 => Some(OpKind::Push),
            0x01 => Some(OpKind::Pop),
            0x02 => Some(OpKind::Echo),
            0x03 => Some(OpKind::Add),
            0x04 => Some(OpKind::Sub),
            0x05 => Some(OpKind::Mul),
            0x06 => Some(OpKind::Div),
            0x07 => Some(OpKind::Goto),
            0x08 => Some(OpKind::Goif),
            0x09 => Some(OpKind::Copy),
            0x0a => Some(OpKind::Halt),
            _ => None,
        }
    }

    /// Decodes an upper-case mnemonic; `None` for a name that is no mnemonic.
    pub fn from_mnemonic(name: &Vec<char>) -> (r: Option<OpKind>)
        ensures
            r == OpKind::parse_mnemonic(name@),
    {
        let n = name.len();
        if n == 3 {
            let (a, b, c) = (name[0], name[1], name[2]);
            assert(name@ =~= seq![a, b, c]);
            if a == 'P' && b == 'O' && c == 'P' {
                Some(OpKind::Pop)
            } else if a == 'A' && b == 'D' && c == 'D' {
                Some(OpKind::Add)
            } else if a == 'S' && b == 'U' && c == 'B' {
                Some(OpKind::Sub)
            } else if a == 'M' && b == 'U' && c == 'L' {
                Some(OpKind::Mul)
            } else if a == 'D' && b == 'I' && c == 'V' {
                Some(OpKind::Div)
            } else {
                None
            }
        } else if n == 4 {
            let (a, b, c, d) = (name[0], name[1], name[2], name[3]);
            assert(name@ =~= seq![a, b, c, d]);
            if a == 'P' && b == 'U' && c == 'S' && d == 'H' {
                Some(OpKind::Push)
            } else if a == 'E' && b == 'C' && c == 'H' && d == 'O' {
                Some(OpKind::Echo)
            } else if a == 'G' && b == 'O' && c == 'T' && d == 'O' {
                Some(OpKind::Goto)
            } else if a == 'G' && b == 'O' && c == 'I' && d == 'F' {
                Some(OpKind::Goif)
            } else if a == 'C' && b == 'O' && c == 'P' && d == 'Y' {
                Some(OpKind::Copy)
            } else if a == 'H' && b == 'A' && c == 'L' && d == 'T' {
                Some(OpKind::Halt)
            } else {
                None
            }
        } else {
            None
        }
    }
}

impl From<OpKind> for u8 {
    fn from(k: OpKind) -> u8 {
        k.opcode()
    }
}

impl vstd::std_specs::convert::FromSpecImpl<OpKind> for u8 {
    open spec fn obeys_from_spec() -> bool {
        true
    }

    open spec fn from_spec(k: OpKind) -> u8 {
        k.code()
    }
}

/// Decoding a kind's byte gives the kind back, and a kind's mnemonic names
/// that kind alone.
pub proof fn lemma_encodings_invert(k: OpKind)
    ensures
        OpKind::decode(k.code()) == Some(k),
        OpKind::parse_mnemonic(k.mnemonic()) == Some(k),
{
}

/// The first (most significant) byte of a word's big-endian form.
pub open spec fn high_byte(w: Word) -> u8 {
    ((w as u16) >> 8u16) as u8
}

/// The second (least significant) byte of a word's big-endian form.
pub open spec fn low_byte(w: Word) -> u8 {
    #[verifier::truncate]
    ((w as u16) as u8)
}

/// The word whose big-endian form is `hi`, `lo`.
pub open spec fn word_of(hi: u8, lo: u8) -> Word {
    (((hi as u16) << 8u16) | (lo as u16)) as i16
}

/// Reading back the two bytes written for a word gives the word.
pub proof fn lemma_word_bytes(w: Word)
    ensures
        word_of(high_byte(w), low_byte(w)) == w,
{
    assert((((((w as u16) >> 8u16) as u8) as u16) << 8u16 | (((w as u16) as u8) as u16)) as i16
        == w) by (bit_vector);
}

/// An instruction: a kind and, for the kinds that carry one, its operand.
#[derive(Debug, Clone, Copy, PartialEq, Eq)]
pub struct Op(pub OpKind, pub Option<Word>);

impl Op {
    /// The operand is present exactly when the kind carries one.
    pub open spec fn wf(self) -> bool {
        self.1.is_some() == self.0.spec_has_operand()
    }

    /// The instruction's bytes: the opcode, then the operand big-endian.
    pub open spec fn bytes(self) -> Seq<u8> {
        match self.1 {
            Some(w) => seq![self.0.code(), high_byte(w), low_byte(w)],
            None => seq![self.0.code()],
        }
    }

    pub fn to_bytes(&self) -> (r: Vec<u8>)
        ensures
            r@ == self.bytes(),
    {
        let mut r: Vec<u8> = Vec::new();
        r.push(self.0.opcode());
        if let Some(w) = self.1 {
            let u: u16 = w as u16;
            r.push((u >> 8u16) as u8);
            r.push(u as u8);
        }
        assert(r@ =~= self.bytes());
        r
    }
}

} // verus!
