use vstd::prelude::*;

use crate::labels::Labels;
use crate::lexer::{lemma_scan_advances, next_token, scan, AsmError, Token};
use crate::op::Word;
use crate::text::chars_of;

verus! {

/// The first pass from offset `i` of the source, which has reached byte
/// `offset` of the program with labels `table`: each label is entered at the
/// offset of the instruction that follows it, and each instruction advances
/// the offset by its size.
pub open spec fn collect_labels(s: Seq<char>, i: int, offset: int, table: Map<Seq<char>, Word>) -> Result<
    Map<Seq<char>, Word>,
    AsmError,
>
    decreases s.len() - i,
    when 0 <= i <= s.len() && s.len() <= usize::MAX
{
    match scan(s, i) {
        Err(e) => Err(e),
        Ok(None) => Ok(table),
        Ok(Some((tok, next))) => {
            proof {
                lemma_scan_advances(s, i);
            }
            match tok {
                Token::Label(a, b) => {
                    let name = s.subrange(a as int, b as int);
                    if table.contains_key(name) {
                        Err(AsmError::DuplicateLabel(a, b))
                    } else {
                        collect_labels(s, next, offset, table.insert(name, offset as Word))
                    }
                },
                Token::Instr(k, _) => if offset + k.size() > i16::MAX {
                    Err(AsmError::ProgramTooLarge)
                } else {
                    collect_labels(s, next, offset + k.size(), table)
                },
            }
        },
    }
}

/// The label table of a whole source.
pub open spec fn label_table(s: Seq<char>) -> Result<Map<Seq<char>, Word>, AsmError> {
    collect_labels(s, 0, 0, Map::empty())
}

/// The first assembler pass: finds the byte offset of every label.
pub struct Preprocessor {
    source: Vec<char>,
}

impl Preprocessor {
    pub closed spec fn text(&self) -> Seq<char> {
        self.source@
    }

    pub fn new(unicode: &str) -> (r: Preprocessor)
        ensures
            r.text() == unicode@,
    {
        Preprocessor { source: chars_of(unicode) }
    }

    /// The label table of the source, or the first error in it.
    pub fn preprocess(&self) -> (r: Result<Labels, AsmError>)
        ensures
            match label_table(self.text()) {
                Ok(m) => r is Ok && r->Ok_0.wf() && r->Ok_0@ == m,
                Err(e) => r == Err::<Labels, AsmError>(e),
            },
    {
        let s = &self.source;
        let mut labels = Labels::new();
        let mut i: usize = 0;
        let mut offset: usize = 0;
        while i < s.len()
            invariant
                s@ == self.text(),
                i <= s.len(),
                offset <= i16::MAX,
                labels.wf(),
                label_table(s@) == collect_labels(s@, i as int, offset as int, labels@),
            decreases s.len() - i,
        {
            let (tok, next) = match next_token(s, i) {
                Err(e) => return Err(e),
                Ok(None) => return Ok(labels),
                Ok(Some(found)) => found,
            };
            match tok {
                Token::Label(a, b) => {
                    if labels.find(s, a, b).is_some() {
                        return Err(AsmError::DuplicateLabel(a, b));
                    }
                    labels.insert(s, a, b, offset as Word);
                },
                Token::Instr(k, _) => {
                    let size = k.instruction_size();
                    if offset + size > 32767 {
                        return Err(AsmError::ProgramTooLarge);
                    }
                    offset = offset + size;
                },
            }
            i = next;
        }
        assert(scan(s@, i as int) == Ok::<Option<(Token, int)>, AsmError>(None));
        Ok(labels)
    }
}

} // verus!
