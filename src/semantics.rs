use vstd::prelude::*;

use crate::assembler::{assembly, emit, encode_all, instrs, resolve};
use crate::lexer::{lemma_scan_advances, scan, AsmError, Token};
use crate::machine::{arith, echoed, execute, fetch, halt_code, load, run, step, MachineState, VmError};
use crate::op::{lemma_encodings_invert, lemma_word_bytes, Op, OpKind, Word};
use crate::preprocessor::label_table;
use crate::stack::STACK_CAPACITY;

verus! {

/// An instruction that runs in place: well formed and no jump.
pub open spec fn straight(op: Op) -> bool {
    op.wf() && !(op.0 is Goto) && !(op.0 is Goif)
}

/// What a straight instruction other than `Halt` does to a stack: the new
/// stack and the word it echoed, if any.
pub open spec fn effect(op: Op, st: Seq<Word>) -> Result<(Seq<Word>, Option<Word>), VmError> {
    let n = st.len();
    match op.0 {
        OpKind::Push => if n >= STACK_CAPACITY {
            Err(VmError::StackOverflow)
        } else {
            Ok((st.push(op.1.unwrap()), None))
        },
        OpKind::Pop => if n == 0 {
            Err(VmError::StackUnderflow)
        } else {
            Ok((st.drop_last(), None))
        },
        OpKind::Echo => if n == 0 {
            Err(VmError::StackUnderflow)
        } else {
            Ok((st, Some(st.last())))
        },
        OpKind::Copy => if n == 0 {
            Err(VmError::StackUnderflow)
        } else if n >= STACK_CAPACITY {
            Err(VmError::StackOverflow)
        } else {
            Ok((st.push(st.last()), None))
        },
        OpKind::Add | OpKind::Sub | OpKind::Mul | OpKind::Div => if n < 2 {
            Err(VmError::StackUnderflow)
        } else if op.0 is Div && st.last() == 0 {
            Err(VmError::DivisionByZero)
        } else {
            Ok((st.drop_last().drop_last().push(arith(op.0, st[n - 2], st.last())), None))
        },
        _ => Ok((st, None)),
    }
}

/// Runs a list of straight instructions from stack `st`: the echoed words, and
/// whether a `Halt` ended the run rather than the end of the list.
pub open spec fn trace(ops: Seq<Op>, st: Seq<Word>) -> Result<(Seq<Word>, bool), VmError>
    decreases ops.len(),
{
    if ops.len() == 0 {
        Ok((seq![], false))
    } else if ops[0].0 is Halt {
        Ok((seq![], true))
    } else {
        match effect(ops[0], st) {
            Err(e) => Err(e),
            Ok((st1, out)) => match trace(ops.drop_first(), st1) {
                Err(e) => Err(e),
                Ok((outs, halted)) => Ok((echoed(out) + outs, halted)),
            },
        }
    }
}

/// Without labels to resolve, the second pass yields straight instructions only.
proof fn lemma_instrs_straight(s: Seq<char>, i: int)
    requires
        0 <= i <= s.len(),
        s.len() <= usize::MAX,
    ensures
        instrs(s, i, Map::empty()) matches Ok(ops) ==> forall|k: int|
            0 <= k < ops.len() ==> straight(#[trigger] ops[k]),
    decreases s.len() - i,
{
    lemma_scan_advances(s, i);
    if let Ok(Some((tok, next))) = scan(s, i) {
        lemma_instrs_straight(s, next);
        if let Token::Instr(k, arg) = tok {
            if let Ok(op) = resolve(s, k, arg, Map::empty()) {
                if let Ok(rest) = instrs(s, next, Map::empty()) {
                    let ops = seq![op] + rest;
                    assert forall|j: int| 0 <= j < ops.len() implies straight(#[trigger] ops[j]) by {
                        if j > 0 {
                            assert(ops[j] == rest[j - 1]);
                        }
                    }
                }
            }
        }
    }
}

/// A straight instruction other than `Halt` changes the machine as `effect`
/// changes the stack, and moves to the next instruction.
proof fn lemma_execute_straight(m: MachineState, op: Op, next: int)
    requires
        straight(op),
        !(op.0 is Halt),
    ensures
        execute(m, op, next) == match effect(op, m.stack) {
            Ok((st, out)) => Ok::<(MachineState, Option<Word>), VmError>(
                (MachineState { ip: next, stack: st, ..m }, out),
            ),
            Err(e) => Err(e),
        },
{
}

/// The bytes of a straight instruction read back as that instruction.
proof fn lemma_fetch_straight(a: Seq<u8>, op: Op, rest: Seq<u8>)
    requires
        straight(op),
    ensures
        fetch(a + op.bytes() + rest, a.len() as int) == Ok::<(Op, int), VmError>(
            (op, (a.len() + op.bytes().len()) as int),
        ),
{
    let p = a + op.bytes() + rest;
    let i = a.len() as int;
    lemma_encodings_invert(op.0);
    assert(p[i] == op.0.code());
    if let Some(w) = op.1 {
        lemma_word_bytes(w);
        assert(p[i + 1] == crate::op::high_byte(w));
        assert(p[i + 2] == crate::op::low_byte(w));
    }
}

/// The machine, started at the first of a list of straight instructions laid
/// out in its program, runs them as `trace` does.
proof fn lemma_run_straight(a: Seq<u8>, ops: Seq<Op>, tail: Seq<u8>, st: Seq<Word>, fuel: nat)
    requires
        forall|k: int| 0 <= k < ops.len() ==> straight(#[trigger] ops[k]),
        tail == seq![halt_code()] || (tail == Seq::<u8>::empty() && !(trace(ops, st) matches Ok(
            (_, false),
        ))),
        fuel > ops.len(),
    ensures
        ({
            let m = MachineState {
                program: a + encode_all(ops) + tail,
                ip: a.len() as int,
                halted: false,
                stack: st,
            };
            match trace(ops, st) {
                Ok((outs, _)) => run(m, fuel) matches Ok((m2, o)) && o == outs && m2.halted,
                Err(e) => run(m, fuel) == Err::<(MachineState, Seq<Word>), VmError>(e),
            }
        }),
    decreases ops.len(),
{
    let p = a + encode_all(ops) + tail;
    let m = MachineState { program: p, ip: a.len() as int, halted: false, stack: st };
    let halt = Op(OpKind::Halt, None);
    if ops.len() == 0 {
        assert(p =~= a + halt.bytes() + Seq::<u8>::empty());
        lemma_fetch_straight(a, halt, Seq::<u8>::empty());
        let m1 = MachineState { ip: (a.len() + 1) as int, halted: true, ..m };
        assert(step(m) == Ok::<(MachineState, Option<Word>), VmError>((m1, None)));
        assert(run(m1, (fuel - 1) as nat) == Ok::<(MachineState, Seq<Word>), VmError>((m1, seq![])));
        assert(echoed(None) + Seq::<Word>::empty() =~= Seq::<Word>::empty());
    } else {
        let op = ops[0];
        let rest = ops.drop_first();
        assert(p =~= a + op.bytes() + (encode_all(rest) + tail));
        lemma_fetch_straight(a, op, encode_all(rest) + tail);
        let next = (a.len() + op.bytes().len()) as int;
        if op.0 is Halt {
            let m1 = MachineState { ip: next, halted: true, ..m };
            assert(step(m) == Ok::<(MachineState, Option<Word>), VmError>((m1, None)));
            assert(run(m1, (fuel - 1) as nat) == Ok::<(MachineState, Seq<Word>), VmError>(
                (m1, seq![]),
            ));
            assert(echoed(None) + Seq::<Word>::empty() =~= Seq::<Word>::empty());
        } else {
            lemma_execute_straight(m, op, next);
            assert(step(m) == execute(m, op, next));
            if let Ok((st1, out)) = effect(op, st) {
                let a1 = a + op.bytes();
                assert(a1 + encode_all(rest) + tail =~= p);
                assert forall|k: int| 0 <= k < rest.len() implies straight(#[trigger] rest[k]) by {
                    assert(rest[k] == ops[k + 1]);
                }
                lemma_run_straight(a1, rest, tail, st1, (fuel - 1) as nat);
                let m1 = MachineState { ip: next, stack: st1, ..m };
                assert(m1 == MachineState {
                    program: a1 + encode_all(rest) + tail,
                    ip: a1.len() as int,
                    halted: false,
                    stack: st1,
                });
            }
        }
    }
}

/// A source that defines no labels and assembles runs as the trace of its
/// instructions: loaded and run with more steps than it has instructions, the
/// machine echoes the words the trace echoes and halts, or fails with the
/// error the trace fails with. Left out are the programs whose bytes end in
/// the `Halt` opcode by chance while their trace runs off the end.
pub proof fn lemma_straight_line_round_trip(s: Seq<char>, fuel: nat)
    requires
        s.len() <= usize::MAX,
        label_table(s) == Ok::<Map<Seq<char>, Word>, AsmError>(Map::empty()),
        assembly(s) is Ok,
        load(assembly(s)->Ok_0) is Ok,
        fuel > instrs(s, 0, Map::empty())->Ok_0.len(),
        !({
            let bytes = assembly(s)->Ok_0;
            &&& bytes.len() > 0
            &&& bytes.last() == halt_code()
            &&& trace(instrs(s, 0, Map::empty())->Ok_0, seq![]) matches Ok((_, false))
        }),
    ensures
        ({
            let ops = instrs(s, 0, Map::empty())->Ok_0;
            let m = load(assembly(s)->Ok_0)->Ok_0;
            &&& assembly(s) == Ok::<Seq<u8>, AsmError>(encode_all(ops))
            &&& match trace(ops, seq![]) {
                Ok((outs, _)) => run(m, fuel) matches Ok((m2, o)) && o == outs && m2.halted,
                Err(e) => run(m, fuel) == Err::<(MachineState, Seq<Word>), VmError>(e),
            }
        }),
{
    let ops = instrs(s, 0, Map::empty())->Ok_0;
    assert(emit(s, 0, Map::empty()) == Ok::<Seq<u8>, AsmError>(encode_all(ops)));
    lemma_instrs_straight(s, 0);
    let bytes = encode_all(ops);
    let empty = Seq::<u8>::empty();
    if bytes.len() > 0 && bytes.last() == halt_code() {
        assert(empty + bytes + empty =~= bytes);
        lemma_run_straight(empty, ops, empty, seq![], fuel);
    } else {
        assert(empty + bytes + seq![halt_code()] =~= bytes.push(halt_code()));
        lemma_run_straight(empty, ops, seq![halt_code()], seq![], fuel);
    }
}

} // verus!
