//! A translator from the stack-oriented virtual-machine language of the Hack
//! platform to Hack assembly: arithmetic and logical operations, and push and
//! pop on the eight memory segments, one instruction at a time.
//!
//! - [`parser`] decodes source lines into [`command`]s; [`grammar`] states
//!   the shapes of the lines that it accepts.
//! - [`code`] says which assembly instructions stand for each command, and
//!   [`hack`] how they are written as text; [`code_writer`] writes them.
//!   [`distinct`] shows that the text tells the instructions apart.
//! - [`translate`] translates a whole source text.
//! - [`machine`] is a model of the target machine, for proofs only;
//!   [`semantics`] and [`stack`] prove on it that the assembly does what the
//!   commands mean.

pub mod code;
pub mod code_writer;
pub mod command;
pub mod decimal;
pub mod distinct;
pub mod grammar;
pub mod hack;
pub mod machine;
pub mod parser;
pub mod semantics;
pub mod stack;
pub mod text;
pub mod translate;
