//! Tests of the individual pipeline stages: lexer bookkeeping, the unroller
//! and coalescer composition, coalescer idempotence, and number rendering.

use bf2urcl::lexer::lex;
use bf2urcl::numfmt::{i64_to_string, u64_to_string};
use bf2urcl::optimize::{coalesce, unroll};
use bf2urcl::tokens::{Token, TokenType};

#[test]
fn lexer_queues_match_the_token_stream() {
    // well-balanced input with three loop opens, two ports, one literal
    let src = b"[+[-]]0FF[+]041<+>".to_vec();
    let out = lex(&src).expect("balanced input");
    let opens = out.tokens.iter().filter(|t| t.token_type == TokenType::OpenLoop).count();
    let ends = out.tokens.iter().filter(|t| t.token_type == TokenType::EndLoop).count();
    assert_eq!(opens, 3);
    assert_eq!(out.loop_times.len(), opens);
    assert_eq!(opens, ends);
    // correctly nested: the depth never goes negative and returns to zero
    let mut depth: i64 = 0;
    for t in &out.tokens {
        if t.token_type == TokenType::OpenLoop {
            depth += 1;
        }
        if t.token_type == TokenType::EndLoop {
            depth -= 1;
            assert!(depth >= 0);
        }
    }
    assert_eq!(depth, 0);
    // one port entry per input or output token
    let ios = out
        .tokens
        .iter()
        .filter(|t| t.token_type == TokenType::Input || t.token_type == TokenType::Output)
        .count();
    assert_eq!(out.port_names.len(), ios);
    assert_eq!(out.numbers, vec![0xFF, 0x41]);
}

#[test]
fn unroller_and_coalescer_unroll_a_counted_trivial_loop() {
    let src = b"0FF[+]".to_vec();
    let out = lex(&src).expect("balanced input");
    let unrolled = unroll(&out.tokens, &out.loop_times);
    let coalesced = coalesce(&unrolled);
    // no residual loop tokens for the unrolled loop
    assert!(coalesced.iter().all(|ot| {
        ot.og_token.token_type != TokenType::OpenLoop
            && ot.og_token.token_type != TokenType::EndLoop
    }));
    // a guard, then the 255 increments as one weighted token
    assert_eq!(coalesced.len(), 3);
    assert_eq!(coalesced[0].og_token.token_type, TokenType::Number);
    assert_eq!(coalesced[0].repeated, 1);
    assert_eq!(coalesced[1].og_token.token_type, TokenType::SkipNext);
    assert_eq!(coalesced[1].repeated, 1);
    assert_eq!(coalesced[2].og_token.token_type, TokenType::Add);
    assert_eq!(coalesced[2].repeated, 255);
}

#[test]
fn coalescer_is_idempotent_on_unit_collapsed_output() {
    let src = b"++>--<+++-%x%>$--".to_vec();
    let out = lex(&src).expect("balanced input");
    let coalesced = coalesce(&out.tokens);
    // collapse every weight back to unit tokens and re-run
    let mut units: Vec<Token> = Vec::new();
    for ot in &coalesced {
        for _ in 0..ot.repeated {
            units.push(ot.og_token);
        }
    }
    let again = coalesce(&units);
    assert_eq!(again, coalesced);
}

#[test]
fn numbers_render_in_decimal() {
    assert_eq!(u64_to_string(0), "0");
    assert_eq!(u64_to_string(10), "10");
    assert_eq!(u64_to_string(255), "255");
    assert_eq!(u64_to_string(65), "65");
    assert_eq!(i64_to_string(-7), "-7");
    assert_eq!(i64_to_string(3), "3");
}
