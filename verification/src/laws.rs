//! Global properties of the pipeline, proved once and for all: the lexer
//! keeps its side queues in step with the token stream, and the run-length
//! coalescer is idempotent.

use crate::codegen::gen_s;
use crate::lexer::{lex_init, lex_s, lex_spec, lex_step, LexSt};
use crate::optimize::{
    coalesce_s, coalesce_spec, count_tt, expand, flush_tok, lemma_count_nonneg, skip_token,
    starts_trivial_loop, unroll_s,
};
use crate::tokens::{extra_token, is_additive, OptiToken, Token, TokenType};
use vstd::prelude::*;

verus! {

/// Counting distributes over appending one token.
pub proof fn lemma_count_push(ts: Seq<Token>, t: Token, tt: TokenType)
    ensures
        count_tt(ts.push(t), tt) == count_tt(ts, tt) + if t.token_type == tt {
            1int
        } else {
            0int
        },
    decreases ts.len(),
{
    if ts.len() == 0 {
        assert(ts.push(t)[0] == t);
        assert(ts.push(t).drop_first() =~= Seq::<Token>::empty());
        assert(count_tt(ts.push(t), tt) == (if t.token_type == tt {
            1int
        } else {
            0int
        }) + count_tt(Seq::<Token>::empty(), tt));
        assert(count_tt(Seq::<Token>::empty(), tt) == 0);
    } else {
        assert(ts.push(t)[0] == ts[0]);
        assert(ts.push(t).drop_first() =~= ts.drop_first().push(t));
        lemma_count_push(ts.drop_first(), t, tt);
        assert(count_tt(ts.push(t), tt) == (if ts[0].token_type == tt {
            1int
        } else {
            0int
        }) + count_tt(ts.drop_first().push(t), tt));
        assert(count_tt(ts, tt) == (if ts[0].token_type == tt {
            1int
        } else {
            0int
        }) + count_tt(ts.drop_first(), tt));
    }
}

/// Every prefix of the stream closes at most as many loops as it opens.
pub open spec fn prefix_balanced(ts: Seq<Token>) -> bool {
    forall|k: int|
        0 <= k <= ts.len() ==> count_tt(#[trigger] ts.take(k), TokenType::EndLoop) <= count_tt(
            ts.take(k),
            TokenType::OpenLoop,
        )
}

/// The bookkeeping the lexer maintains: one repetition entry per loop open,
/// one port entry per input or output, the nesting stack as deep as the open
/// surplus, and every prefix balanced.
pub open spec fn lex_inv(st: LexSt) -> bool {
    &&& st.times.len() == count_tt(st.tokens, TokenType::OpenLoop)
    &&& st.ports.len() == count_tt(st.tokens, TokenType::Input) + count_tt(
        st.tokens,
        TokenType::Output,
    )
    &&& st.stack.len() == count_tt(st.tokens, TokenType::OpenLoop) - count_tt(
        st.tokens,
        TokenType::EndLoop,
    )
    &&& prefix_balanced(st.tokens)
}

/// Appending a token keeps every prefix balanced, provided an end token only
/// arrives while a loop is open.
proof fn lemma_prefix_balanced_push(ts: Seq<Token>, t: Token)
    requires
        prefix_balanced(ts),
        t.token_type == TokenType::EndLoop ==> count_tt(ts, TokenType::EndLoop) < count_tt(
            ts,
            TokenType::OpenLoop,
        ),
    ensures
        prefix_balanced(ts.push(t)),
{
    let ts2 = ts.push(t);
    assert forall|k: int| 0 <= k <= ts2.len() implies count_tt(
        #[trigger] ts2.take(k),
        TokenType::EndLoop,
    ) <= count_tt(ts2.take(k), TokenType::OpenLoop) by {
        if k <= ts.len() {
            assert(ts2.take(k) =~= ts.take(k));
        } else {
            assert(ts2.take(k) =~= ts2);
            assert(ts.take(ts.len() as int) =~= ts);
            lemma_count_push(ts, t, TokenType::EndLoop);
            lemma_count_push(ts, t, TokenType::OpenLoop);
        }
    }
}

/// One lexer step keeps the bookkeeping.
proof fn lemma_lex_step_inv(st: LexSt, b: u8)
    requires
        lex_inv(st),
    ensures
        lex_inv(lex_step(st, b)),
{
    let st2 = lex_step(st, b);
    if st2.tokens =~= st.tokens {
        assert(lex_inv(st2));
    } else {
        let t = st2.tokens.last();
        assert(st2.tokens =~= st.tokens.push(t));
        lemma_count_push(st.tokens, t, TokenType::OpenLoop);
        lemma_count_push(st.tokens, t, TokenType::EndLoop);
        lemma_count_push(st.tokens, t, TokenType::Input);
        lemma_count_push(st.tokens, t, TokenType::Output);
        lemma_prefix_balanced_push(st.tokens, t);
        assert(lex_inv(st2));
    }
}

/// The bookkeeping holds after any sequence of steps.
proof fn lemma_lex_s_inv(st: LexSt, bs: Seq<u8>)
    requires
        lex_inv(st),
    ensures
        lex_inv(lex_s(st, bs)),
    decreases bs.len(),
{
    if bs.len() > 0 {
        lemma_lex_step_inv(st, bs[0]);
        lemma_lex_s_inv(lex_step(st, bs[0]), bs.drop_first());
    }
}

/// On any input the lexer produces exactly one repetition entry per loop
/// open and one port entry per input or output; every prefix of the token
/// stream closes at most as many loops as it opens; the nesting stack is as
/// deep as the open surplus, so when it returns to depth zero the end tokens
/// match the open tokens one for one.
pub proof fn lemma_lexer_queue_counts(input: Seq<u8>)
    ensures
        ({
            let fin = lex_spec(input);
            &&& fin.times.len() == count_tt(fin.tokens, TokenType::OpenLoop)
            &&& fin.ports.len() == count_tt(fin.tokens, TokenType::Input) + count_tt(
                fin.tokens,
                TokenType::Output,
            )
            &&& fin.stack.len() == count_tt(fin.tokens, TokenType::OpenLoop) - count_tt(
                fin.tokens,
                TokenType::EndLoop,
            )
            &&& prefix_balanced(fin.tokens)
            &&& (fin.stack.len() == 0 ==> count_tt(fin.tokens, TokenType::EndLoop) == count_tt(
                fin.tokens,
                TokenType::OpenLoop,
            ))
        }),
{
    assert(count_tt(Seq::<Token>::empty(), TokenType::OpenLoop) == 0);
    assert(lex_inv(lex_init())) by {
        assert forall|k: int| 0 <= k <= 0 implies count_tt(
            #[trigger] Seq::<Token>::empty().take(k),
            TokenType::EndLoop,
        ) <= count_tt(Seq::<Token>::empty().take(k), TokenType::OpenLoop) by {
            assert(Seq::<Token>::empty().take(k) =~= Seq::<Token>::empty());
        }
    }
    lemma_lex_s_inv(lex_init(), input);
}

/// Shape of one coalescer output entry in its stream: a non-zero weight,
/// weight one on every non-additive token, and no two additive entries in a
/// row.
pub open spec fn wf_at(os: Seq<OptiToken>, i: int) -> bool {
    &&& os[i].repeated != 0
    &&& (!is_additive(os[i].og_token.token_type) ==> os[i].repeated == 1)
    &&& (is_additive(os[i].og_token.token_type) && i + 1 < os.len() ==> !is_additive(
        os[i + 1].og_token.token_type,
    ))
}

/// Shape of a coalescer output stream.
pub open spec fn coalesce_wf(os: Seq<OptiToken>) -> bool {
    forall|i: int| 0 <= i < os.len() ==> #[trigger] wf_at(os, i)
}

/// Net delta of a run of one additive token.
pub open spec fn run_delta(tok: Token, n: nat) -> int {
    if tok.token_type == TokenType::Add {
        n as int
    } else {
        -(n as int)
    }
}

/// A leading run of one additive token is absorbed into the accumulator.
proof fn lemma_absorb_run(tok: Token, n: nat, bs: Seq<Token>, rep: int, temp: Token)
    requires
        is_additive(tok.token_type),
    ensures
        coalesce_s(Seq::new(n, |k: int| tok) + bs, rep, temp) == coalesce_s(
            bs,
            rep + run_delta(tok, n),
            if n > 0 {
                tok
            } else {
                temp
            },
        ),
    decreases n,
{
    if n == 0 {
        assert(Seq::new(0, |k: int| tok) + bs =~= bs);
    } else {
        let s = Seq::new(n, |k: int| tok) + bs;
        assert(s[0] == tok);
        assert(s.drop_first() =~= Seq::new((n - 1) as nat, |k: int| tok) + bs);
        let d: int = if tok.token_type == TokenType::Add {
            1
        } else {
            -1
        };
        assert(coalesce_s(s, rep, temp) == coalesce_s(s.drop_first(), rep + d, tok));
        lemma_absorb_run(tok, (n - 1) as nat, bs, rep + d, tok);
    }
}

/// Re-coalescing the unit expansion of a well-shaped stream returns the
/// stream itself, whatever the idle `temp` token is.
proof fn lemma_expand_coalesce(os: Seq<OptiToken>, temp: Token)
    requires
        coalesce_wf(os),
    ensures
        coalesce_s(expand(os), 0, temp) == os,
    decreases os.len(),
{
    if os.len() == 0 {
        assert(coalesce_s(expand(os), 0, temp) =~= os);
    } else {
        let el = os[0];
        let rest = os.drop_first();
        assert(wf_at(os, 0));
        assert forall|i: int| 0 <= i < rest.len() implies #[trigger] wf_at(rest, i) by {
            assert(wf_at(os, i + 1));
            assert(rest[i] == os[i + 1]);
            if i + 1 < rest.len() {
                assert(rest[i + 1] == os[i + 2]);
            }
        }
        if is_additive(el.og_token.token_type) {
            let w = el.repeated as nat;
            let delta = run_delta(el.og_token, w);
            assert(expand(os) == Seq::new(w, |k: int| el.og_token) + expand(rest));
            lemma_absorb_run(el.og_token, w, expand(rest), 0, temp);
            assert(flush_tok(el.og_token, delta) == el);
            if rest.len() == 0 {
                assert(expand(rest) =~= Seq::<Token>::empty());
                assert(coalesce_s(expand(os), 0, temp) == seq![el]);
                assert(seq![el] =~= os);
            } else {
                assert(wf_at(os, 1));
                let hd = rest[0];
                assert(!is_additive(hd.og_token.token_type));
                let rest1 = rest.drop_first();
                assert(expand(rest) == Seq::new(hd.repeated as nat, |k: int| hd.og_token) + expand(
                    rest1,
                ));
                assert(hd.repeated == 1);
                assert(expand(rest)[0] == hd.og_token);
                assert(expand(rest).drop_first() =~= expand(rest1));
                assert(coalesce_s(expand(rest), delta, el.og_token) == seq![
                    flush_tok(el.og_token, delta),
                ] + seq![OptiToken { og_token: hd.og_token, repeated: 1 }] + coalesce_s(
                    expand(rest1),
                    0,
                    el.og_token,
                ));
                assert forall|i: int| 0 <= i < rest1.len() implies #[trigger] wf_at(rest1, i) by {
                    assert(wf_at(rest, i + 1));
                    assert(rest1[i] == rest[i + 1]);
                    if i + 1 < rest1.len() {
                        assert(rest1[i + 1] == rest[i + 2]);
                    }
                }
                lemma_expand_coalesce(rest1, el.og_token);
                assert(OptiToken { og_token: hd.og_token, repeated: 1 } == hd);
                assert(seq![el] + seq![hd] + rest1 =~= os);
            }
        } else {
            assert(el.repeated == 1);
            assert(expand(os) == Seq::new(1, |k: int| el.og_token) + expand(rest));
            assert(expand(os)[0] == el.og_token);
            assert(expand(os).drop_first() =~= expand(rest));
            assert(coalesce_s(expand(os), 0, temp) == Seq::<OptiToken>::empty() + seq![
                OptiToken { og_token: el.og_token, repeated: 1 },
            ] + coalesce_s(expand(rest), 0, temp));
            lemma_expand_coalesce(rest, temp);
            assert(OptiToken { og_token: el.og_token, repeated: 1 } == el);
            assert(Seq::<OptiToken>::empty() + seq![el] + rest =~= os);
        }
    }
}

/// When no entry of the coalescer's output carries weight zero, the output
/// is well shaped.
#[verifier::rlimit(50)]
proof fn lemma_coalesce_output_wf(ts: Seq<Token>, rep: int, temp: Token)
    requires
        forall|i: int|
            0 <= i < coalesce_s(ts, rep, temp).len() ==> #[trigger] coalesce_s(
                ts,
                rep,
                temp,
            )[i].repeated != 0,
    ensures
        coalesce_wf(coalesce_s(ts, rep, temp)),
    decreases ts.len(),
{
    let os = coalesce_s(ts, rep, temp);
    if ts.len() == 0 {
        assert forall|i: int| 0 <= i < os.len() implies #[trigger] wf_at(os, i) by {
            assert(os[i] == flush_tok(temp, rep));
        }
    } else {
        let t = ts[0];
        if t.token_type == TokenType::Add {
            lemma_coalesce_output_wf(ts.drop_first(), rep + 1, t);
        } else if t.token_type == TokenType::Subtract {
            lemma_coalesce_output_wf(ts.drop_first(), rep - 1, t);
        } else {
            let pending: Seq<OptiToken> = if rep != 0 {
                seq![flush_tok(temp, rep)]
            } else {
                Seq::empty()
            };
            let tail = coalesce_s(ts.drop_first(), 0, temp);
            let off = pending.len() + 1;
            assert(os == pending + seq![OptiToken { og_token: t, repeated: 1 }] + tail);
            assert forall|i: int| 0 <= i < tail.len() implies tail[i] == os[i + off] by {}
            assert forall|i: int| 0 <= i < tail.len() implies #[trigger] tail[i].repeated != 0 by {
                assert(os[i + off].repeated != 0);
            }
            lemma_coalesce_output_wf(ts.drop_first(), 0, temp);
            assert forall|i: int| 0 <= i < os.len() implies #[trigger] wf_at(os, i) by {
                if i < pending.len() {
                    assert(os[i] == flush_tok(temp, rep));
                    assert(os[i + 1] == OptiToken { og_token: t, repeated: 1 });
                } else if i == pending.len() {
                    assert(os[i] == OptiToken { og_token: t, repeated: 1 });
                } else {
                    assert(wf_at(tail, i - off));
                    assert(os[i] == tail[i - off]);
                    if i + 1 < os.len() {
                        assert(os[i + 1] == tail[i - off + 1]);
                    }
                }
            }
        }
    }
}

/// The run-length coalescer is idempotent: collapsing its output back to
/// unit tokens and re-running it returns the same weighted stream.  The one
/// proviso is that no run nets to a non-zero multiple of the 256-value cell
/// range, since such a run is recorded with weight zero and its expansion is
/// empty.
pub proof fn lemma_coalescer_idempotent(ts: Seq<Token>)
    requires
        forall|i: int|
            0 <= i < coalesce_spec(ts).len() ==> #[trigger] coalesce_spec(ts)[i].repeated != 0,
    ensures
        coalesce_spec(expand(coalesce_spec(ts))) == coalesce_spec(ts),
{
    lemma_coalesce_output_wf(ts, 0, extra_token());
    lemma_expand_coalesce(coalesce_spec(ts), extra_token());
}

/// The token stream can be generated within the given budgets: `nt`
/// repetition entries, `np` port entries, and `depth` loops already open.
pub open spec fn tok_ok(ts: Seq<Token>, nt: int, np: int, depth: int) -> bool
    decreases ts.len(),
{
    if ts.len() == 0 {
        true
    } else {
        let h = ts[0].token_type;
        if h == TokenType::OpenLoop {
            nt > 0 && tok_ok(ts.drop_first(), nt - 1, np, depth + 1)
        } else if h == TokenType::EndLoop {
            depth > 0 && tok_ok(ts.drop_first(), nt, np, depth - 1)
        } else if h == TokenType::Input || h == TokenType::Output {
            np > 0 && tok_ok(ts.drop_first(), nt, np - 1, depth)
        } else {
            tok_ok(ts.drop_first(), nt, np, depth)
        }
    }
}

/// The same budget condition over a weighted stream.
pub open spec fn gen_ok(os: Seq<OptiToken>, nt: int, np: int, depth: int) -> bool
    decreases os.len(),
{
    if os.len() == 0 {
        true
    } else {
        let h = os[0].og_token.token_type;
        if h == TokenType::OpenLoop {
            nt > 0 && gen_ok(os.drop_first(), nt - 1, np, depth + 1)
        } else if h == TokenType::EndLoop {
            depth > 0 && gen_ok(os.drop_first(), nt, np, depth - 1)
        } else if h == TokenType::Input || h == TokenType::Output {
            np > 0 && gen_ok(os.drop_first(), nt, np - 1, depth)
        } else {
            gen_ok(os.drop_first(), nt, np, depth)
        }
    }
}

/// A stream within budget generates successfully.
pub proof fn lemma_gen_ok_succeeds(
    os: Seq<OptiToken>,
    times: Seq<u16>,
    ports: Seq<Seq<char>>,
    stack: Seq<u16>,
)
    requires
        gen_ok(os, times.len() as int, ports.len() as int, stack.len() as int),
    ensures
        gen_s(os, times, ports, stack) is Ok,
    decreases os.len(),
{
    if os.len() > 0 {
        let h = os[0].og_token.token_type;
        if h == TokenType::OpenLoop {
            lemma_gen_ok_succeeds(os.drop_first(), times.drop_first(), ports, stack.push(times[0]));
        } else if h == TokenType::EndLoop {
            lemma_gen_ok_succeeds(os.drop_first(), times, ports, stack.drop_last());
        } else if h == TokenType::Input || h == TokenType::Output {
            lemma_gen_ok_succeeds(os.drop_first(), times, ports.drop_first(), stack);
        } else {
            lemma_gen_ok_succeeds(os.drop_first(), times, ports, stack);
        }
    }
}

/// The budgets are monotone: a stream fine on smaller budgets is fine on
/// larger ones.
proof fn lemma_tok_ok_monotone(ts: Seq<Token>, nt: int, np: int, depth: int, nt2: int, np2: int)
    requires
        tok_ok(ts, nt, np, depth),
        nt <= nt2,
        np <= np2,
    ensures
        tok_ok(ts, nt2, np2, depth),
    decreases ts.len(),
{
    if ts.len() > 0 {
        let h = ts[0].token_type;
        if h == TokenType::OpenLoop {
            lemma_tok_ok_monotone(ts.drop_first(), nt - 1, np, depth + 1, nt2 - 1, np2);
        } else if h == TokenType::EndLoop {
            lemma_tok_ok_monotone(ts.drop_first(), nt, np, depth - 1, nt2, np2, );
        } else if h == TokenType::Input || h == TokenType::Output {
            lemma_tok_ok_monotone(ts.drop_first(), nt, np - 1, depth, nt2, np2 - 1);
        } else {
            lemma_tok_ok_monotone(ts.drop_first(), nt, np, depth, nt2, np2);
        }
    }
}

/// A leading run of one additive token spends no budget.
proof fn lemma_tok_ok_run(tok: Token, n: nat, bs: Seq<Token>, nt: int, np: int, depth: int)
    requires
        is_additive(tok.token_type),
        tok_ok(bs, nt, np, depth),
    ensures
        tok_ok(Seq::new(n, |k: int| tok) + bs, nt, np, depth),
    decreases n,
{
    if n == 0 {
        assert(Seq::new(0, |k: int| tok) + bs =~= bs);
    } else {
        let s = Seq::new(n, |k: int| tok) + bs;
        assert(s[0] == tok);
        assert(s.drop_first() =~= Seq::new((n - 1) as nat, |k: int| tok) + bs);
        lemma_tok_ok_run(tok, (n - 1) as nat, bs, nt, np, depth);
    }
}

/// The loop unroller keeps the stream within its budgets, whatever the
/// repetition entries it consumes.
proof fn lemma_unroll_tok_ok(ts: Seq<Token>, times: Seq<u16>, nt: int, np: int, depth: int)
    requires
        tok_ok(ts, nt, np, depth),
    ensures
        tok_ok(unroll_s(ts, times), nt, np, depth),
    decreases ts.len(),
{
    if ts.len() == 0 {
    } else if starts_trivial_loop(ts) {
        assert(ts.drop_first() =~= ts.skip(1));
        assert(ts.skip(1).drop_first() =~= ts.skip(2));
        assert(ts.skip(2).drop_first() =~= ts.skip(3));
        assert(ts.skip(1)[0] == ts[1]);
        assert(ts.skip(2)[0] == ts[2]);
        assert(tok_ok(ts.skip(1), nt - 1, np, depth + 1));
        assert(tok_ok(ts.skip(2), nt - 1, np, depth + 1));
        assert(tok_ok(ts.skip(3), nt - 1, np, depth));
        lemma_unroll_tok_ok(ts.skip(3), times.drop_first(), nt - 1, np, depth);
        lemma_tok_ok_monotone(unroll_s(ts.skip(3), times.drop_first()), nt - 1, np, depth, nt, np);
        lemma_tok_ok_run(
            ts[1],
            times[0] as nat,
            unroll_s(ts.skip(3), times.drop_first()),
            nt,
            np,
            depth,
        );
        let body = Seq::new(times[0] as nat, |k: int| ts[1]) + unroll_s(
            ts.skip(3),
            times.drop_first(),
        );
        let whole = seq![skip_token()] + body;
        assert(whole[0] == skip_token());
        assert(whole.drop_first() =~= body);
        assert(unroll_s(ts, times) =~= whole);
    } else {
        let whole = seq![ts[0]] + unroll_s(ts.drop_first(), times);
        assert(whole[0] == ts[0]);
        assert(whole.drop_first() =~= unroll_s(ts.drop_first(), times));
        let h = ts[0].token_type;
        if h == TokenType::OpenLoop {
            lemma_unroll_tok_ok(ts.drop_first(), times, nt - 1, np, depth + 1);
        } else if h == TokenType::EndLoop {
            lemma_unroll_tok_ok(ts.drop_first(), times, nt, np, depth - 1);
        } else if h == TokenType::Input || h == TokenType::Output {
            lemma_unroll_tok_ok(ts.drop_first(), times, nt, np - 1, depth);
        } else {
            lemma_unroll_tok_ok(ts.drop_first(), times, nt, np, depth);
        }
    }
}

/// The run-length coalescer keeps the stream within its budgets.
proof fn lemma_coalesce_gen_ok(ts: Seq<Token>, rep: int, temp: Token, nt: int, np: int, depth: int)
    requires
        tok_ok(ts, nt, np, depth),
    ensures
        gen_ok(coalesce_s(ts, rep, temp), nt, np, depth),
    decreases ts.len(),
{
    let os = coalesce_s(ts, rep, temp);
    assert(gen_ok(Seq::<OptiToken>::empty(), nt, np, depth));
    if ts.len() == 0 {
        if rep != 0 {
            assert(os =~= seq![flush_tok(temp, rep)]);
            assert(os.drop_first() =~= Seq::<OptiToken>::empty());
        } else {
            assert(os =~= Seq::<OptiToken>::empty());
        }
    } else {
        let t = ts[0];
        if t.token_type == TokenType::Add {
            lemma_coalesce_gen_ok(ts.drop_first(), rep + 1, t, nt, np, depth);
        } else if t.token_type == TokenType::Subtract {
            lemma_coalesce_gen_ok(ts.drop_first(), rep - 1, t, nt, np, depth);
        } else {
            let el = OptiToken { og_token: t, repeated: 1 };
            let tail = coalesce_s(ts.drop_first(), 0, temp);
            let mid = seq![el] + tail;
            assert(mid[0] == el);
            assert(mid.drop_first() =~= tail);
            let h = t.token_type;
            if h == TokenType::OpenLoop {
                lemma_coalesce_gen_ok(ts.drop_first(), 0, temp, nt - 1, np, depth + 1);
            } else if h == TokenType::EndLoop {
                lemma_coalesce_gen_ok(ts.drop_first(), 0, temp, nt, np, depth - 1);
            } else if h == TokenType::Input || h == TokenType::Output {
                lemma_coalesce_gen_ok(ts.drop_first(), 0, temp, nt, np - 1, depth);
            } else {
                lemma_coalesce_gen_ok(ts.drop_first(), 0, temp, nt, np, depth);
            }
            assert(gen_ok(mid, nt, np, depth));
            if rep != 0 {
                assert(os =~= seq![flush_tok(temp, rep)] + mid);
                assert(os[0] == flush_tok(temp, rep));
                assert(os.drop_first() =~= mid);
            } else {
                assert(os =~= mid);
            }
        }
    }
}

/// Counting one token at the head.
proof fn lemma_count_cons(h: Token, s: Seq<Token>, tt: TokenType)
    ensures
        count_tt(seq![h] + s, tt) == (if h.token_type == tt {
            1int
        } else {
            0int
        }) + count_tt(s, tt),
{
    assert((seq![h] + s)[0] == h);
    assert((seq![h] + s).drop_first() =~= s);
}

/// Every prefix closes at most `depth` more loops than it opens.
pub open spec fn prefix_balanced_d(ts: Seq<Token>, depth: int) -> bool {
    forall|k: int|
        0 <= k <= ts.len() ==> count_tt(#[trigger] ts.take(k), TokenType::EndLoop) <= count_tt(
            ts.take(k),
            TokenType::OpenLoop,
        ) + depth
}

/// The counting conditions put a token stream within its budgets.
proof fn lemma_counts_give_tok_ok(ts: Seq<Token>, nt: int, np: int, depth: int)
    requires
        count_tt(ts, TokenType::OpenLoop) <= nt,
        count_tt(ts, TokenType::Input) + count_tt(ts, TokenType::Output) <= np,
        prefix_balanced_d(ts, depth),
        depth >= 0,
    ensures
        tok_ok(ts, nt, np, depth),
    decreases ts.len(),
{
    if ts.len() > 0 {
        let h = ts[0];
        let rest = ts.drop_first();
        lemma_count_cons(h, rest, TokenType::OpenLoop);
        lemma_count_cons(h, rest, TokenType::EndLoop);
        lemma_count_cons(h, rest, TokenType::Input);
        lemma_count_cons(h, rest, TokenType::Output);
        assert(seq![h] + rest =~= ts);
        lemma_count_nonneg(rest, TokenType::OpenLoop);
        lemma_count_nonneg(rest, TokenType::Input);
        lemma_count_nonneg(rest, TokenType::Output);
        let d2: int = if h.token_type == TokenType::OpenLoop {
            depth + 1
        } else if h.token_type == TokenType::EndLoop {
            depth - 1
        } else {
            depth
        };
        assert(prefix_balanced_d(rest, d2)) by {
            assert forall|k: int| 0 <= k <= rest.len() implies count_tt(
                #[trigger] rest.take(k),
                TokenType::EndLoop,
            ) <= count_tt(rest.take(k), TokenType::OpenLoop) + d2 by {
                assert(ts.take(k + 1) =~= seq![h] + rest.take(k));
                lemma_count_cons(h, rest.take(k), TokenType::OpenLoop);
                lemma_count_cons(h, rest.take(k), TokenType::EndLoop);
            }
        }
        if h.token_type == TokenType::EndLoop {
            assert(ts.take(1) =~= seq![h] + rest.take(0));
            assert(rest.take(0) =~= Seq::<Token>::empty());
            lemma_count_cons(h, rest.take(0), TokenType::OpenLoop);
            lemma_count_cons(h, rest.take(0), TokenType::EndLoop);
            assert(depth > 0);
        }
        lemma_counts_give_tok_ok(rest, nt - (if h.token_type == TokenType::OpenLoop {
            1int
        } else {
            0int
        }), np - (if h.token_type == TokenType::Input || h.token_type == TokenType::Output {
            1int
        } else {
            0int
        }), d2);
    }
}

/// On an input the lexer accepts, the whole rest of the pipeline runs within
/// its budgets: the generator meets no queue underflow.
pub proof fn lemma_pipeline_within_budget(input: Seq<u8>)
    ensures
        ({
            let fin = lex_spec(input);
            gen_s(
                coalesce_spec(unroll_s(fin.tokens, fin.times)),
                fin.times,
                fin.ports,
                Seq::<u16>::empty(),
            ) is Ok
        }),
{
    let fin = lex_spec(input);
    lemma_lexer_queue_counts(input);
    assert(prefix_balanced_d(fin.tokens, 0)) by {
        assert forall|k: int| 0 <= k <= fin.tokens.len() implies count_tt(
            #[trigger] fin.tokens.take(k),
            TokenType::EndLoop,
        ) <= count_tt(fin.tokens.take(k), TokenType::OpenLoop) + 0 by {
            assert(count_tt(fin.tokens.take(k), TokenType::EndLoop) <= count_tt(
                fin.tokens.take(k),
                TokenType::OpenLoop,
            ));
        }
    }
    lemma_counts_give_tok_ok(
        fin.tokens,
        fin.times.len() as int,
        fin.ports.len() as int,
        0,
    );
    lemma_unroll_tok_ok(fin.tokens, fin.times, fin.times.len() as int, fin.ports.len() as int, 0);
    lemma_coalesce_gen_ok(
        unroll_s(fin.tokens, fin.times),
        0,
        extra_token(),
        fin.times.len() as int,
        fin.ports.len() as int,
        0,
    );
    lemma_gen_ok_succeeds(
        coalesce_spec(unroll_s(fin.tokens, fin.times)),
        fin.times,
        fin.ports,
        Seq::<u16>::empty(),
    );
}

} // verus!
