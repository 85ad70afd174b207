//! Static analysis of stack-machine bytecode: disassembly, symbolic stack
//! execution, control-flow-graph recovery, pseudocode structuring, and
//! calldata decoding against known or inferred argument signatures.

pub mod word;
pub mod opcode;
pub mod decoder;
pub mod expr;
pub mod machine;
pub mod cfg;
pub mod calldata;
pub mod encode;
pub mod decompiler;
pub mod hex;
