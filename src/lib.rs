/// Syntax trees and their mathematical model.
pub mod ast;
/// The language's grammar, as functions from tokens and a position to a tree.
pub mod grammar;
/// Laws of register allocation: sticky bindings, no aliasing, exhaustion.
pub mod liveness;
/// Source spans.
pub mod loc;
/// The recursive-descent parser.
pub mod parser;
/// The register allocator over the IR instruction stream.
pub mod reg_alloc;
/// Tokens handed to the parser.
pub mod token;

pub use ast::{Ast, AstKind, BinOpKind, Node, NodeKind, UniOpKind};
pub use loc::Loc;
pub use parser::{ParseError, Parser};
pub use reg_alloc::{IRGenerator, IROp, RegAllocError, IR, REGISTER_COUNT};
pub use token::{Token, TokenKind};
