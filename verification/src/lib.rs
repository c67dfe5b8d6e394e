//! Analysis backbone of a SATySFi language server.
//!
//! The text of a document is parsed by a grammar engine. What the engine
//! hands over is read into an owned syntax tree ([`Cst`]), which is held
//! together with the text ([`BufferCst`]). On the tree the library answers
//! which nodes lie around a cursor position, in which lexical mode the
//! cursor is ([`parser::Mode`]), and which commands and variables the
//! document defines ([`Environment`]).

pub mod buffer;
pub mod completion;
pub mod cst;
pub mod definition;
pub mod environment;
pub mod grammar;
pub mod marks;
pub mod parser;
pub mod position;
pub mod pretty;
pub mod store;

pub use crate::buffer::{Buffer, BufferCst};
pub use crate::cst::Cst;
pub use crate::environment::{BlockCmd, Environment, InlineCmd, MathCmd, Variable};
pub use crate::grammar::{ParseError, SyntaxError};
pub use crate::marks::Mark;
pub use crate::store::Buffers;
pub use crate::position::{CstPosition, CstRange, DocPosition, DocRange};
