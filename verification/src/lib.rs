//! A compiler front end for a tiny expression language: integer arithmetic,
//! comparisons, `if`/`else`, and function calls.  Source text is parsed into
//! an abstract syntax tree, and the tree is lowered into a control-flow-graph
//! intermediate representation with an executor giving the language its
//! runtime semantics.

pub mod ast;
pub mod codegen;
pub mod ir;
pub mod parser;
