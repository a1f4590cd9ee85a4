//! Bytecode packaged with a full header: the compiling crate's version,
//! the AST it came from, and the diagnostic mappings.

use vstd::prelude::*;

use crate::ast::Block;
use crate::bytecode::{encode_opcodes, index_lookup, spec_index_lookup, text_offset};
use crate::compiler::CompilationError;
use crate::data::ComptimeValue;
use crate::opcode::OpCode;
use crate::utils::get_version;

verus! {

/// Bytecode in a more abstract form: the opcode list before encoding,
/// with its data section and provenance.
#[derive(Debug)]
pub struct ImByteCode {
    /// The program, as opcodes.
    pub text: Vec<OpCode>,
    /// The data section.
    pub data: Vec<ComptimeValue>,
    /// For each opcode, the id of the AST node it was generated from.
    pub ast_ids: Vec<usize>,
}

/// The header of packaged bytecode.
#[derive(Debug)]
pub struct FinalByteCodeHeader {
    /// The version of the crate that compiled this bytecode.
    pub version: (u16, u16, u16),
    /// The AST the compilation started from.
    pub ast: Block,
    /// The id of the AST node the n-th opcode was generated from.
    pub ast_ids: Vec<usize>,
    /// Pairs of byte offset and opcode ordinal, in program order.
    pub index: Vec<(usize, usize)>,
}

/// Bytecode in its final, packaged form.
#[derive(Debug)]
pub struct FinalByteCode {
    pub text: Vec<u8>,
    pub data: Vec<ComptimeValue>,
    pub header: FinalByteCodeHeader,
}

impl FinalByteCode {
    /// The ordinal of the opcode that starts at byte offset `pc`.
    pub fn pc_to_index(&self, pc: usize) -> (r: Option<usize>)
        ensures
            r == spec_index_lookup(self.header.index@, pc),
    {
        index_lookup(&self.header.index, pc)
    }

    /// The id of the AST node compiled into the opcode at byte offset
    /// `pc`.
    pub fn pc_to_ast_id(&self, pc: usize) -> (r: Option<usize>)
        ensures
            match spec_index_lookup(self.header.index@, pc) {
                Some(i) => if (i as int) < self.header.ast_ids@.len() {
                    r == Some(self.header.ast_ids@[i as int])
                } else {
                    r is None
                },
                None => r is None,
            },
    {
        match self.pc_to_index(pc) {
            Some(i) => {
                if i < self.header.ast_ids.len() {
                    Some(self.header.ast_ids[i])
                } else {
                    None
                }
            }
            None => None,
        }
    }
}

/// Package intermediate bytecode: append the final exit, encode the
/// opcodes, and wrap the bytes with the version, the AST and the
/// diagnostic mappings. The offset index maps the byte offset of each
/// opcode to its ordinal.
pub fn intermediate_to_final(im: ImByteCode, ast: Block) -> (r: Result<
    FinalByteCode,
    CompilationError,
>)
    ensures
        r matches Ok(f) ==> ({
            let ops = im.text@.push(OpCode::Exit(0));
            &&& f.header.index@.len() == ops.len()
            &&& (forall|k: int|
                0 <= k < ops.len() ==> (#[trigger] f.header.index@[k]) == (
                (text_offset(ops, k) as usize),
                k as usize,
            ))
            &&& f.text@.len() == text_offset(ops, ops.len() as int)
            &&& (forall|k: int|
                0 <= k < ops.len() ==> #[trigger] ops[k].wf() && f.text@.subrange(
                    text_offset(ops, k),
                    text_offset(ops, k) + ops[k].spec_size(),
                ) == ops[k].spec_encoding())
            &&& f.data@ == im.data@
            &&& f.header.ast_ids@ == im.ast_ids@.push(0usize)
            &&& f.header.version == (0u16, 1u16, 0u16)
        }),
        r matches Err(e) ==> (exists|k: int|
            0 <= k < im.text@.push(OpCode::Exit(0)).len() && !(#[trigger] im.text@.push(
                OpCode::Exit(0),
            )[k]).wf()),
{
    let mut text = im.text;
    let mut ast_ids = im.ast_ids;
    text.push(OpCode::Exit(0));
    ast_ids.push(0);
    match encode_opcodes(&text) {
        Ok(p) => Ok(
            FinalByteCode {
                text: p.0,
                data: im.data,
                header: FinalByteCodeHeader {
                    version: get_version(),
                    ast,
                    ast_ids,
                    index: p.1,
                },
            },
        ),
        Err(k) => {
            proof {
                assert(!text@[k as int].wf());
            }
            let ast_id = if k < ast_ids.len() {
                ast_ids[k]
            } else {
                0
            };
            Err(
                CompilationError::CompilerBug {
                    ast_id,
                    msg: "an emitted index does not fit the encoding".to_owned(),
                },
            )
        }
    }
}

} // verus!
