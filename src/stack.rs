use vstd::prelude::*;

use crate::op::Word;
use crate::text::{decimal_text, word_text};

verus! {

/// The number of words an operand stack holds.
pub const STACK_CAPACITY: usize = 1024;

/// Why a stack operation was refused.
#[derive(Debug, Clone, Copy, PartialEq, Eq, Structural)]
pub enum StackError {
    /// A push onto a full stack.
    Overflow,
    /// A pop or a peek on an empty stack.
    Underflow,
}

/// A fixed-capacity LIFO store of words. Its view lists the words from the
/// bottom of the stack to the top.
pub struct Stack {
    buffer: Vec<Word>,
    index: usize,
}

impl View for Stack {
    type V = Seq<Word>;

    closed spec fn view(&self) -> Seq<Word> {
        self.buffer@.subrange(0, self.index as int)
    }
}

/// The text of a stack: its words from the top down, each followed by ` -> `,
/// and then `None`.
pub open spec fn stack_text(s: Seq<Word>) -> Seq<char>
    decreases s.len(),
{
    if s.len() == 0 {
        seq!['N', 'o', 'n', 'e']
    } else {
        decimal_text(s.last() as int) + seq![' ', '-', '>', ' '] + stack_text(s.drop_last())
    }
}

/// The stack after pushing `w` onto `s`, or the overflow of a full stack.
pub open spec fn push_result(s: Seq<Word>, w: Word) -> Result<Seq<Word>, StackError> {
    if s.len() >= STACK_CAPACITY {
        Err(StackError::Overflow)
    } else {
        Ok(s.push(w))
    }
}

/// The top word of `s` with the stack below it, or the underflow of an empty stack.
pub open spec fn pop_result(s: Seq<Word>) -> Result<(Word, Seq<Word>), StackError> {
    if s.len() == 0 {
        Err(StackError::Underflow)
    } else {
        Ok((s.last(), s.drop_last()))
    }
}

/// Pushes the words of `ws` onto `s` in order, stopping at the first failure.
pub open spec fn push_all(s: Seq<Word>, ws: Seq<Word>) -> Result<Seq<Word>, StackError>
    decreases ws.len(),
{
    if ws.len() == 0 {
        Ok(s)
    } else {
        match push_all(s, ws.drop_last()) {
            Ok(t) => push_result(t, ws.last()),
            Err(e) => Err(e),
        }
    }
}

/// Pops `n` words off `s`; gives them in the order they came off, with the
/// stack that is left.
pub open spec fn pop_n(s: Seq<Word>, n: nat) -> Result<(Seq<Word>, Seq<Word>), StackError>
    decreases n,
{
    if n == 0 {
        Ok((seq![], s))
    } else {
        match pop_n(s, (n - 1) as nat) {
            Ok((out, t)) => match pop_result(t) {
                Ok((w, u)) => Ok((out.push(w), u)),
                Err(e) => Err(e),
            },
            Err(e) => Err(e),
        }
    }
}

proof fn lemma_push_all_fits(ws: Seq<Word>)
    requires
        ws.len() <= STACK_CAPACITY,
    ensures
        push_all(seq![], ws) == Ok::<Seq<Word>, StackError>(ws),
    decreases ws.len(),
{
    if ws.len() > 0 {
        lemma_push_all_fits(ws.drop_last());
        assert(ws.drop_last().push(ws.last()) =~= ws);
    } else {
        assert(ws =~= seq![]);
    }
}

proof fn lemma_pop_n(s: Seq<Word>, k: nat)
    requires
        k <= s.len(),
    ensures
        pop_n(s, k) == Ok::<(Seq<Word>, Seq<Word>), StackError>(
            (Seq::new(k, |i: int| s[s.len() - 1 - i]), s.take(s.len() - k)),
        ),
    decreases k,
{
    if k > 0 {
        lemma_pop_n(s, (k - 1) as nat);
        let t = s.take(s.len() - (k - 1));
        assert(t.last() == s[s.len() - k]);
        assert(t.drop_last() =~= s.take(s.len() - k));
        assert(Seq::new((k - 1) as nat, |i: int| s[s.len() - 1 - i]).push(t.last()) =~= Seq::new(
            k,
            |i: int| s[s.len() - 1 - i],
        ));
    } else {
        assert(Seq::new(0, |i: int| s[s.len() - 1 - i]) =~= seq![]);
        assert(s.take(s.len() as int) =~= s);
    }
}

/// Pushing at most a full stack's worth of words onto an empty stack succeeds;
/// popping them all back gives them in reverse order and leaves the stack
/// empty, and one more pop underflows.
pub proof fn lemma_lifo(ws: Seq<Word>)
    requires
        ws.len() <= STACK_CAPACITY,
    ensures
        push_all(seq![], ws) == Ok::<Seq<Word>, StackError>(ws),
        pop_n(ws, ws.len()) == Ok::<(Seq<Word>, Seq<Word>), StackError>((ws.reverse(), seq![])),
        pop_n(ws, ws.len() + 1) == Err::<(Seq<Word>, Seq<Word>), StackError>(StackError::Underflow),
{
    lemma_push_all_fits(ws);
    lemma_pop_n(ws, ws.len());
    assert(Seq::new(ws.len(), |i: int| ws[ws.len() - 1 - i]) =~= ws.reverse());
    assert(ws.take(0) =~= Seq::<Word>::empty());
    assert(pop_n(ws, ws.len() + 1) == match pop_n(ws, ws.len()) {
        Ok((out, t)) => match pop_result(t) {
            Ok((w, u)) => Ok((out.push(w), u)),
            Err(e) => Err(e),
        },
        Err(e) => Err(e),
    });
}

/// Of more than a full stack's worth of pushes onto an empty stack, the first
/// `STACK_CAPACITY` succeed and the next one overflows.
pub proof fn lemma_overflow(ws: Seq<Word>)
    requires
        ws.len() == STACK_CAPACITY + 1,
    ensures
        push_all(seq![], ws.take(STACK_CAPACITY as int)) == Ok::<Seq<Word>, StackError>(
            ws.take(STACK_CAPACITY as int),
        ),
        push_result(ws.take(STACK_CAPACITY as int), ws[STACK_CAPACITY as int]) == Err::<
            Seq<Word>,
            StackError,
        >(StackError::Overflow),
        push_all(seq![], ws) == Err::<Seq<Word>, StackError>(StackError::Overflow),
{
    let front = ws.take(STACK_CAPACITY as int);
    lemma_push_all_fits(front);
    assert(ws.drop_last() =~= front);
}

impl Stack {
    /// The buffer is allocated at full capacity and the top index lies within it.
    pub closed spec fn wf(&self) -> bool {
        &&& self.buffer.len() == STACK_CAPACITY
        &&& self.index <= STACK_CAPACITY
    }

    pub fn new() -> (r: Stack)
        ensures
            r.wf(),
            r@ == Seq::<Word>::empty(),
    {
        let r = Stack { buffer: vec![0; STACK_CAPACITY], index: 0 };
        assert(r@ =~= Seq::<Word>::empty());
        r
    }

    /// The number of words on the stack.
    pub fn len(&self) -> (r: usize)
        requires
            self.wf(),
        ensures
            r == self@.len(),
            r <= STACK_CAPACITY,
    {
        self.index
    }

    /// The top word, left in place.
    pub fn head(&self) -> (r: Result<Word, StackError>)
        requires
            self.wf(),
        ensures
            self@.len() == 0 ==> r == Err::<Word, StackError>(StackError::Underflow),
            self@.len() > 0 ==> r == Ok::<Word, StackError>(self@.last()),
    {
        if self.index == 0 {
            return Err(StackError::Underflow);
        }
        Ok(self.buffer[self.index - 1])
    }

    pub fn push(&mut self, word: Word) -> (r: Result<(), StackError>)
        requires
            old(self).wf(),
        ensures
            final(self).wf(),
            match push_result(old(self)@, word) {
                Ok(s) => r == Ok::<(), StackError>(()) && final(self)@ == s,
                Err(e) => r == Err::<(), StackError>(e) && final(self)@ == old(self)@,
            },
    {
        if self.index >= STACK_CAPACITY {
            return Err(StackError::Overflow);
        }
        self.buffer.set(self.index, word);
        self.index = self.index + 1;
        assert(self@ =~= old(self)@.push(word));
        Ok(())
    }

    pub fn pop(&mut self) -> (r: Result<Word, StackError>)
        requires
            old(self).wf(),
        ensures
            final(self).wf(),
            match pop_result(old(self)@) {
                Ok((w, s)) => r == Ok::<Word, StackError>(w) && final(self)@ == s,
                Err(e) => r == Err::<Word, StackError>(e) && final(self)@ == old(self)@,
            },
    {
        if self.index == 0 {
            return Err(StackError::Underflow);
        }
        self.index = self.index - 1;
        assert(self@ =~= old(self)@.drop_last());
        Ok(self.buffer[self.index])
    }

    /// The stack as text, top first: `30 -> 20 -> 10 -> None`, or `None` when empty.
    pub fn to_string(&self) -> (r: String)
        requires
            self.wf(),
        ensures
            r@ == stack_text(self@),
    {
        proof {
            reveal_strlit(" -> ");
            reveal_strlit("None");
        }
        let mut r = String::new();
        let mut i: usize = self.index;
        assert(self@.subrange(0, i as int) =~= self@);
        assert(r@ + stack_text(self@) =~= stack_text(self@));
        while i > 0
            invariant
                self.wf(),
                i <= self.index,
                r@ + stack_text(self@.subrange(0, i as int)) == stack_text(self@),
            decreases i,
        {
            let ghost prefix = self@.subrange(0, i as int);
            assert(prefix.drop_last() =~= self@.subrange(0, i - 1));
            let ghost before = r@;
            let piece = word_text(self.buffer[i - 1]);
            r.append(piece.as_str());
            proof {
                reveal_strlit(" -> ");
            }
            r.append(" -> ");
            assert(r@ == before + decimal_text(prefix.last() as int) + seq![' ', '-', '>', ' ']);
            assert(stack_text(prefix) == decimal_text(prefix.last() as int) + seq![' ', '-', '>', ' ']
                + stack_text(prefix.drop_last()));
            assert(r@ + stack_text(prefix.drop_last()) =~= before + stack_text(prefix));
            i = i - 1;
        }
        assert(self@.subrange(0, 0) =~= Seq::<Word>::empty());
        r.append("None");
        assert(r@ =~= stack_text(self@));
        r
    }
}

} // verus!
