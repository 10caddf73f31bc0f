//! End-to-end tests of the compilation pipeline.

use bf2urcl::compile;
use bf2urcl::tokens::{CompileError, OptiToken, Token, TokenType};

fn compiled(src: &[u8], no_hlt: bool) -> String {
    compile(src.to_vec(), no_hlt).expect("compilation should succeed")
}

#[test]
fn four_increments_become_one_weighted_add() {
    assert_eq!(compiled(b"++++", false), "ADD R1 R1 4\nHLT");
}

#[test]
fn three_up_two_down_net_to_one_add() {
    assert_eq!(compiled(b"+++--", false), "ADD R1 R1 1\nHLT");
}

#[test]
fn mixed_run_netting_down_becomes_subtract() {
    assert_eq!(compiled(b"+---", false), "SUB R1 R1 2\nHLT");
}

#[test]
fn increment_and_output_with_halt() {
    assert_eq!(compiled(b"+>", false), "ADD R1 R1 1\nOUT %TEXT R1\nHLT");
}

#[test]
fn increment_and_output_without_halt() {
    assert_eq!(compiled(b"+>", true), "ADD R1 R1 1\nOUT %TEXT R1");
}

#[test]
fn numeric_literal_names_the_input_port() {
    assert_eq!(compiled(b"041<", false), "IN R1 65\nHLT");
}

#[test]
fn numeric_literal_names_the_output_port() {
    assert_eq!(compiled(b"041>", false), "OUT 65 R1\nHLT");
}

#[test]
fn string_escape_names_the_ports() {
    assert_eq!(compiled(b"%abc%>", false), "OUT %abc R1\nHLT");
    assert_eq!(compiled(b"%abc%<", false), "IN R1 %abc\nHLT");
}

#[test]
fn unrecognized_bytes_are_ignored() {
    assert_eq!(compiled(b" + \n+ !", false), "ADD R1 R1 2\nHLT");
}

#[test]
fn bare_hex_digit_emits_nothing() {
    assert_eq!(compiled(b"A+", false), "ADD R1 R1 1\nHLT");
}

#[test]
fn multi_byte_port_names_decode_as_utf8() {
    // 0xC3 0xA9 is the UTF-8 encoding of U+00E9
    assert_eq!(compiled(b"%h\xc3\xa9%>", false), "OUT %h\u{e9} R1\nHLT");
}

#[test]
fn invalid_utf8_port_names_fall_back_to_one_char_per_byte() {
    // 0xFF alone is not valid UTF-8: the byte is read at its own code point
    assert_eq!(compiled(b"%\xff%>", false), "OUT %\u{ff} R1\nHLT");
}

#[test]
fn unmatched_lookahead_after_string_escape_is_dropped() {
    // the byte after the closing escape is neither < nor >: no token, the
    // captured name is discarded and the later input reads the default port
    assert_eq!(compiled(b"%ab%x<", false), "IN R1 %TEXT\nHLT");
}

#[test]
fn unmatched_lookahead_after_conditional_prefix_is_dropped() {
    assert_eq!(compiled(b"?x+", false), "ADD R1 R1 1\nHLT");
}

#[test]
fn each_io_reads_its_own_literal() {
    assert_eq!(compiled(b"041>05A<", false), "OUT 65 R1\nIN R1 90\nHLT");
}

#[test]
fn unbalanced_close_aborts() {
    assert_eq!(compile(b"+]".to_vec(), false), Err(CompileError::UnbalancedClose));
}

#[test]
fn conditional_prefix_push_and_pop() {
    assert_eq!(compiled(b"?>", false), "PSH R1\nHLT");
    assert_eq!(compiled(b"?<", false), "POP R1\nHLT");
}

#[test]
fn infinite_loop_with_two_token_body() {
    assert_eq!(compiled(b"[+-]", false), ".loop1\nJMP .loop1\nHLT");
}

#[test]
fn counted_loop_with_loop_counter_read() {
    assert_eq!(
        compiled(b"005[$]", false),
        "BRZ .loop1_e R1\nMOV R3 5\n.loop1\nMOV R1 R3\nDEC R3 R3\nBNZ .loop1 R3\n.loop1_e\nHLT"
    );
}

#[test]
fn conditional_loop_bound_comes_from_the_accumulator() {
    assert_eq!(
        compiled(b"?[$]", false),
        "BRZ .loop1_e R1\nMOV R3 R1\n.loop1\nMOV R1 R3\nDEC R3 R3\nBNZ .loop1 R3\n.loop1_e\nHLT"
    );
}

#[test]
fn trivial_loop_is_unrolled_with_a_guard() {
    // repetition count 3: a guard, then three increments coalesced
    assert_eq!(compiled(b"003[+]", false), "BRZ ~+2 R1\nADD R1 R1 3\nHLT");
}

#[test]
fn trivial_subtract_loop_is_unrolled() {
    assert_eq!(compiled(b"002[-]", false), "BRZ ~+2 R1\nSUB R1 R1 2\nHLT");
}

#[test]
fn unrolled_infinite_loop_wraps_to_weight_zero() {
    // an unbounded trivial loop unrolls to 256 increments, which reduce to
    // weight zero at the eight-bit cell width
    assert_eq!(compiled(b"[+]", false), "BRZ ~+2 R1\nADD R1 R1 0\nHLT");
}

#[test]
fn empty_input_generates_only_the_halt() {
    assert_eq!(compiled(b"", false), "HLT");
    assert_eq!(compiled(b"", true), "");
}

#[test]
fn repetition_queue_is_consumed_positionally() {
    // the queue entry of the outer loop feeds the unrolled inner loop, as the
    // positional first-in-first-out consumption dictates
    assert_eq!(
        compiled(b"[[+]]", false),
        ".loop1\nBRZ ~+2 R1\nADD R1 R1 0\nJMP .loop1\nHLT"
    );
}

#[test]
fn nested_loops_retrieve_their_own_repetition_entries() {
    // a counted outer loop around an unbounded inner one: the end of the
    // inner loop must see the inner entry, the end of the outer the outer one
    assert_eq!(
        compiled(b"003[[+-]]", false),
        "BRZ .loop1_e R1\nMOV R3 3\n.loop1\n.loop2\nJMP .loop2\nDEC R3 R3\nBNZ .loop1 R3\n.loop1_e\nHLT"
    );
}

#[test]
fn token_to_urcl_reports_repetition_underflow() {
    let tokens = vec![OptiToken {
        og_token: Token { token_type: TokenType::OpenLoop, loop_id: 1, loop_layer: 1 },
        repeated: 1,
    }];
    let r = bf2urcl::codegen::token_to_urcl(tokens, Vec::new(), Vec::new(), Vec::new(), false);
    assert_eq!(r, Err(CompileError::RepetitionQueueUnderflow));
}

#[test]
fn token_to_urcl_reports_loop_stack_underflow() {
    let tokens = vec![OptiToken {
        og_token: Token { token_type: TokenType::EndLoop, loop_id: 1, loop_layer: 0 },
        repeated: 1,
    }];
    let r = bf2urcl::codegen::token_to_urcl(tokens, vec![256], Vec::new(), Vec::new(), false);
    assert_eq!(r, Err(CompileError::LoopStackUnderflow));
}

#[test]
fn token_to_urcl_reports_port_underflow() {
    let tokens = vec![OptiToken {
        og_token: Token { token_type: TokenType::Input, loop_id: 0, loop_layer: 0 },
        repeated: 1,
    }];
    let r = bf2urcl::codegen::token_to_urcl(tokens, Vec::new(), Vec::new(), Vec::new(), false);
    assert_eq!(r, Err(CompileError::PortQueueUnderflow));
}
