pub mod ast;
pub mod blocks;
pub mod codegen;
pub mod common;
pub mod constant_folding;
pub mod controlflow;
pub mod copy_elimination;
pub mod dataflow;
pub mod dead_code_elimination;
pub mod graphviz;
pub mod instructions;
pub mod lookup_table;
pub mod nodes;
pub mod numtext;
pub mod optimisation;
pub mod phi_elim;
pub mod regalloc;
pub mod semantics;
pub mod ssa;
pub mod table;
pub mod text;
