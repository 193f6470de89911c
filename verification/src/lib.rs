//! An interpreter for a stack-based virtual instruction set: modules of typed
//! functions over a linear byte-addressed memory, tables of references and
//! four numeric value kinds.
//!
//! The crate is laid out leaves first. [`repr`] is the decoded module.
//! [`parser`] reads it from the binary format and [`encoder`] writes it;
//! [`text`] reads it from the text format. [`instance`] holds the store,
//! and [`linking`] wires a module into it and runs its start function.
//! [`numeric`] says what the integer instructions compute, [`rt`] holds
//! values, the operand stack and the instructions that touch no control,
//! and [`machine`] runs instantiated functions step by step. [`bytecode`],
//! [`wat`] and [`scripts`] read flat instruction sequences, tokens kept as
//! text, and scripts of commands.
//!
//! Numbers in binary floating point are carried as bit patterns. The
//! machine does not compute with them: where an instruction needs such
//! arithmetic, and where a function of the host is called, the machine
//! stops and asks the embedder, who answers with the result.
pub mod bytecode;
pub mod encoder;
pub mod instance;
pub mod linking;
pub mod machine;
pub mod numeric;
pub mod parser;
pub mod repr;
pub mod rt;
pub mod scripts;
pub mod text;
pub mod wat;
