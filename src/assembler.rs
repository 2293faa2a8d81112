use vstd::prelude::*;

use crate::labels::Labels;
use crate::lexer::{lemma_scan_advances, next_token, scan, AsmError, Operand, Token};
use crate::op::{Op, OpKind, Word};
use crate::preprocessor::{label_table, Preprocessor};
use crate::text::chars_of;

verus! {

/// The instruction a token of kind `k` with operand `arg` stands for, a
/// label operand looked up in `labels`.
pub open spec fn resolve(s: Seq<char>, k: OpKind, arg: Operand, labels: Map<Seq<char>, Word>) -> Result<
    Op,
    AsmError,
> {
    match arg {
        Operand::Absent => Ok(Op(k, None)),
        Operand::Number(w) => Ok(Op(k, Some(w))),
        Operand::Target(a, b) => {
            let name = s.subrange(a as int, b as int);
            if labels.contains_key(name) {
                Ok(Op(k, Some(labels[name])))
            } else {
                Err(AsmError::UnrecognizedLabel(a, b))
            }
        },
    }
}

/// The bytes of a list of instructions, one after the other.
pub open spec fn encode_all(ops: Seq<Op>) -> Seq<u8>
    decreases ops.len(),
{
    if ops.len() == 0 {
        seq![]
    } else {
        ops[0].bytes() + encode_all(ops.drop_first())
    }
}

pub proof fn lemma_encode_all_push(ops: Seq<Op>, op: Op)
    ensures
        encode_all(ops.push(op)) == encode_all(ops) + op.bytes(),
    decreases ops.len(),
{
    if ops.len() == 0 {
        assert(ops.push(op).drop_first() =~= Seq::<Op>::empty());
        assert(encode_all(ops.push(op).drop_first()) == Seq::<u8>::empty());
        assert(ops.push(op)[0] == op);
        assert(encode_all(ops.push(op)) =~= encode_all(ops) + op.bytes());
    } else {
        lemma_encode_all_push(ops.drop_first(), op);
        assert(ops.push(op).drop_first() =~= ops.drop_first().push(op));
        assert(ops.push(op)[0] == ops[0]);
        assert(encode_all(ops.push(op)) =~= encode_all(ops) + op.bytes());
    }
}

/// The second pass from offset `i` of the source: the instructions in order;
/// label definitions stand for none.
pub open spec fn instrs(s: Seq<char>, i: int, labels: Map<Seq<char>, Word>) -> Result<Seq<Op>, AsmError>
    decreases s.len() - i,
    when 0 <= i <= s.len() && s.len() <= usize::MAX
{
    match scan(s, i) {
        Err(e) => Err(e),
        Ok(None) => Ok(seq![]),
        Ok(Some((tok, next))) => {
            proof {
                lemma_scan_advances(s, i);
            }
            match tok {
                Token::Label(_, _) => instrs(s, next, labels),
                Token::Instr(k, arg) => match resolve(s, k, arg, labels) {
                    Err(e) => Err(e),
                    Ok(op) => match instrs(s, next, labels) {
                        Err(e) => Err(e),
                        Ok(rest) => Ok(seq![op] + rest),
                    },
                },
            }
        },
    }
}

/// The bytes the second pass emits from offset `i` of the source.
pub open spec fn emit(s: Seq<char>, i: int, labels: Map<Seq<char>, Word>) -> Result<Seq<u8>, AsmError> {
    match instrs(s, i, labels) {
        Ok(ops) => Ok(encode_all(ops)),
        Err(e) => Err(e),
    }
}

/// The program assembled from source `s`: the labels of the first pass, then
/// the bytes of the second.
pub open spec fn assembly(s: Seq<char>) -> Result<Seq<u8>, AsmError> {
    match label_table(s) {
        Err(e) => Err(e),
        Ok(labels) => emit(s, 0, labels),
    }
}

/// Assembling the same source twice gives the same outcome.
pub proof fn lemma_assembly_deterministic(s1: Seq<char>, s2: Seq<char>)
    requires
        s1 == s2,
    ensures
        assembly(s1) == assembly(s2),
{
}

/// The second assembler pass: emits the program, resolving jump targets
/// through a label table.
pub struct Assembler {
    source: Vec<char>,
    labels: Labels,
}

impl Assembler {
    pub closed spec fn text(&self) -> Seq<char> {
        self.source@
    }

    pub closed spec fn table(&self) -> Map<Seq<char>, Word> {
        self.labels@
    }

    pub closed spec fn wf(&self) -> bool {
        self.labels.wf()
    }

    pub fn new(unicode: &str, labels: Labels) -> (r: Assembler)
        requires
            labels.wf(),
        ensures
            r.wf(),
            r.text() == unicode@,
            r.table() == labels@,
    {
        Assembler { source: chars_of(unicode), labels }
    }

    /// The bytes of the program, or the first error in the source.
    pub fn assemble(&self) -> (r: Result<Vec<u8>, AsmError>)
        requires
            self.wf(),
        ensures
            match emit(self.text(), 0, self.table()) {
                Ok(bytes) => r is Ok && r->Ok_0@ == bytes,
                Err(e) => r == Err::<Vec<u8>, AsmError>(e),
            },
    {
        let s = &self.source;
        let ghost table = self.table();
        let mut out: Vec<u8> = Vec::new();
        let ghost mut done: Seq<Op> = seq![];
        let mut i: usize = 0;
        assert(done + Seq::<Op>::empty() =~= Seq::<Op>::empty());
        assert(instrs(s@, 0, table) == match instrs(s@, 0, table) {
            Ok(rest) => Ok::<Seq<Op>, AsmError>(done + rest),
            Err(e) => Err(e),
        }) by {
            if let Ok(rest) = instrs(s@, 0, table) {
                assert(done + rest =~= rest);
            }
        }
        while i < s.len()
            invariant
                s@ == self.text(),
                table == self.table(),
                self.wf(),
                i <= s.len(),
                out@ == encode_all(done),
                instrs(s@, 0, table) == match instrs(s@, i as int, table) {
                    Ok(rest) => Ok::<Seq<Op>, AsmError>(done + rest),
                    Err(e) => Err(e),
                },
            decreases s.len() - i,
        {
            let (tok, next) = match next_token(s, i) {
                Err(e) => return Err(e),
                Ok(None) => {
                    assert(done + Seq::<Op>::empty() =~= done);
                    return Ok(out);
                },
                Ok(Some(found)) => found,
            };
            if let Token::Instr(k, arg) = tok {
                let operand = match arg {
                    Operand::Absent => None,
                    Operand::Number(w) => Some(w),
                    Operand::Target(a, b) => match self.labels.find(s, a, b) {
                        Some(w) => Some(w),
                        None => return Err(AsmError::UnrecognizedLabel(a, b)),
                    },
                };
                let op = Op(k, operand);
                let mut bytes = op.to_bytes();
                out.append(&mut bytes);
                proof {
                    lemma_encode_all_push(done, op);
                    assert forall|rest: Seq<Op>| #[trigger] (done + (seq![op] + rest)) == done.push(op)
                        + rest by {
                        assert(done + (seq![op] + rest) =~= done.push(op) + rest);
                    }
                    done = done.push(op);
                }
            }
            i = next;
        }
        assert(done + Seq::<Op>::empty() =~= done);
        Ok(out)
    }
}

/// Assembles a whole source: both passes over it.
pub fn assemble(unicode: &str) -> (r: Result<Vec<u8>, AsmError>)
    ensures
        match assembly(unicode@) {
            Ok(bytes) => r is Ok && r->Ok_0@ == bytes,
            Err(e) => r == Err::<Vec<u8>, AsmError>(e),
        },
{
    let preprocessor = Preprocessor::new(unicode);
    let labels = match preprocessor.preprocess() {
        Ok(labels) => labels,
        Err(e) => return Err(e),
    };
    let assembler = Assembler::new(unicode, labels);
    assembler.assemble()
}

} // verus!
