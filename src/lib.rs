pub mod assembler;
pub mod labels;
pub mod lexer;
pub mod machine;
pub mod op;
pub mod preprocessor;
pub mod semantics;
pub mod stack;
pub mod text;

pub use assembler::{assemble, Assembler};
pub use labels::Labels;
pub use lexer::AsmError;
pub use machine::{Machine, VmError, PROGRAM_CAPACITY};
pub use op::{Op, OpKind, Word};
pub use preprocessor::Preprocessor;
pub use stack::{Stack, StackError, STACK_CAPACITY};
