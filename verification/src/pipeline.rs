//! The whole compilation pipeline: lexer, loop unroller, run-length
//! coalescer and code generator, run in that order on one owned input
//! buffer.

use crate::codegen::{token_to_urcl, urcl_spec};
use crate::laws::{lemma_lexer_queue_counts, lemma_pipeline_within_budget};
use crate::lexer::{lex, lex_spec};
use crate::optimize::{coalesce, coalesce_spec, unroll, unroll_s};
use crate::tokens::CompileError;
use vstd::prelude::*;

verus! {

/// The compilation outcome on an input: the generated program text, or the
/// fatal condition that aborted it.
pub open spec fn compile_spec(input: Seq<u8>, no_hlt: bool) -> Result<Seq<char>, CompileError> {
    let fin = lex_spec(input);
    if fin.failed {
        Err(CompileError::UnbalancedClose)
    } else {
        urcl_spec(coalesce_spec(unroll_s(fin.tokens, fin.times)), fin.times, fin.ports, no_hlt)
    }
}

/// Compiling succeeds on exactly the inputs the lexer accepts: the side
/// queues it builds stay in step with the token stream, so the later stages
/// meet no underflow.
pub proof fn lemma_compile_total(input: Seq<u8>, no_hlt: bool)
    ensures
        compile_spec(input, no_hlt) is Ok <==> !lex_spec(input).failed,
        lex_spec(input).failed ==> compile_spec(input, no_hlt) == Err::<Seq<char>, CompileError>(
            CompileError::UnbalancedClose,
        ),
{
    if !lex_spec(input).failed {
        lemma_pipeline_within_budget(input);
    }
}

/// Compiles one source buffer to target text.  With `no_hlt_enabled` the
/// trailing halt instruction is left out, so a caller can chain further code
/// after the generated program.  It succeeds on exactly the inputs whose
/// loop closes all match an open loop.
pub fn compile(input: Vec<u8>, no_hlt_enabled: bool) -> (r: Result<String, CompileError>)
    ensures
        ({
            let s = compile_spec(input@, no_hlt_enabled);
            match r {
                Ok(out) => s is Ok && out@ == s->Ok_0,
                Err(e) => s is Err && e == s->Err_0,
            }
        }),
        r is Ok <==> !lex_spec(input@).failed,
        r is Err ==> r->Err_0 == CompileError::UnbalancedClose,
{
    proof {
        lemma_compile_total(input@, no_hlt_enabled);
    }
    let lexed = match lex(&input) {
        Err(e) => {
            return Err(e);
        },
        Ok(o) => o,
    };
    proof {
        lemma_lexer_queue_counts(input@);
    }
    let token_list_2 = unroll(&lexed.tokens, &lexed.loop_times);
    let otoken_list = coalesce(&token_list_2);
    token_to_urcl(
        otoken_list,
        lexed.loop_times,
        lexed.numbers,
        lexed.port_names,
        no_hlt_enabled,
    )
}

} // verus!
