//! The code generator: turns the weighted token stream and the side queues
//! into the target text, one line (or short fixed block) per weighted token.
//!
//! Register 1 is the working accumulator; the counter of a loop lives in the
//! register indexed by its nesting depth plus two.  Loop labels are derived
//! from the loop identifier.

use crate::lexer::lemma_deep_view_push;
use crate::numfmt::{dec_digits, dec_int, i64_to_string, u64_to_string};
use crate::optimize::pop_first;
use crate::tokens::{CompileError, OptiToken, Token, TokenType, CONDITIONAL_LOOP, INFINITE_LOOP};
use vstd::prelude::*;

verus! {

/// The register that holds the counter of the loop a token sits in: the
/// token's nesting depth plus two, rendered in decimal.
pub open spec fn reg_of(layer: i64) -> Seq<char> {
    dec_int(layer.wrapping_add(2) as int)
}

/// The counter register seen from a loop-end token.  An end token is tagged
/// with the depth outside its loop, one less than its open token, so the
/// register of the loop's own depth is the layer plus three: the end
/// decrements the same counter its open initialised.
pub open spec fn reg_of_end(layer: i64) -> Seq<char> {
    dec_int(layer.wrapping_add(3) as int)
}

/// The guard line: skip the next two instructions when the accumulator is
/// zero.
pub open spec fn line_skipnext() -> Seq<char> {
    "BRZ ~+2 R1"@
}

/// A weighted additive line.
pub open spec fn line_additive(tt: TokenType, w: u8) -> Seq<char> {
    if tt == TokenType::Add {
        "ADD R1 R1 "@ + dec_digits(w as int)
    } else {
        "SUB R1 R1 "@ + dec_digits(w as int)
    }
}

/// The block emitted at a loop open, by its repetition entry: a bare label
/// for an unbounded loop; otherwise a zero test, the counter initialisation
/// (from the accumulator for a conditional bound, from the literal count
/// otherwise) and the label.
pub open spec fn line_open(tok: Token, t: u16) -> Seq<char> {
    let id = dec_int(tok.loop_id as int);
    if t == INFINITE_LOOP {
        ".loop"@ + id
    } else if t == CONDITIONAL_LOOP {
        "BRZ .loop"@ + id + "_e R1\nMOV R"@ + reg_of(tok.loop_layer) + " R1\n.loop"@ + id
    } else {
        "BRZ .loop"@ + id + "_e R1\nMOV R"@ + reg_of(tok.loop_layer) + " "@ + dec_digits(t as int)
            + "\n.loop"@ + id
    }
}

/// The block emitted at a loop end: a back jump for an unbounded loop,
/// otherwise counter decrement, conditional back branch and the end label.
/// The counter decremented is the one the matching open initialised.
pub open spec fn line_end(tok: Token, t: u16) -> Seq<char> {
    let id = dec_int(tok.loop_id as int);
    let reg = reg_of_end(tok.loop_layer);
    if t == INFINITE_LOOP {
        "JMP .loop"@ + id
    } else {
        "DEC R"@ + reg + " R"@ + reg + "\nBNZ .loop"@ + id + " R"@ + reg + "\n.loop"@ + id + "_e"@
    }
}

/// The read-from-port line.
pub open spec fn line_input(port: Seq<char>) -> Seq<char> {
    "IN R1 "@ + port
}

/// The write-to-port line.
pub open spec fn line_output(port: Seq<char>) -> Seq<char> {
    "OUT "@ + port + " R1"@
}

/// The loop-counter read: the current depth's counter register moved into
/// the accumulator.
pub open spec fn line_counter(tok: Token) -> Seq<char> {
    "MOV R1 R"@ + reg_of(tok.loop_layer)
}

/// Prepends one emitted line to the lines of the rest of the stream.
pub open spec fn cons_line(l: Seq<char>, rest: Result<Seq<Seq<char>>, CompileError>) -> Result<
    Seq<Seq<char>>,
    CompileError,
> {
    match rest {
        Ok(ls) => Ok(seq![l] + ls),
        Err(e) => Err(e),
    }
}

/// The emitted lines for a weighted token stream.  `times` and `ports` are
/// the repetition-count and port-name queues, consumed front first; `stack`
/// holds the repetition entries of the loops currently open, innermost last.
/// An exhausted queue or an end token with no open loop aborts generation.
pub open spec fn gen_s(
    os: Seq<OptiToken>,
    times: Seq<u16>,
    ports: Seq<Seq<char>>,
    stack: Seq<u16>,
) -> Result<Seq<Seq<char>>, CompileError>
    decreases os.len(),
{
    if os.len() == 0 {
        Ok(Seq::empty())
    } else {
        let el = os[0];
        let rest = os.drop_first();
        match el.og_token.token_type {
            TokenType::SkipNext => cons_line(line_skipnext(), gen_s(rest, times, ports, stack)),
            TokenType::Add => cons_line(
                line_additive(TokenType::Add, el.repeated),
                gen_s(rest, times, ports, stack),
            ),
            TokenType::Subtract => cons_line(
                line_additive(TokenType::Subtract, el.repeated),
                gen_s(rest, times, ports, stack),
            ),
            TokenType::OpenLoop => if times.len() == 0 {
                Err(CompileError::RepetitionQueueUnderflow)
            } else {
                cons_line(
                    line_open(el.og_token, times[0]),
                    gen_s(rest, times.drop_first(), ports, stack.push(times[0])),
                )
            },
            TokenType::EndLoop => if stack.len() == 0 {
                Err(CompileError::LoopStackUnderflow)
            } else {
                cons_line(
                    line_end(el.og_token, stack.last()),
                    gen_s(rest, times, ports, stack.drop_last()),
                )
            },
            TokenType::Input => if ports.len() == 0 {
                Err(CompileError::PortQueueUnderflow)
            } else {
                cons_line(line_input(ports[0]), gen_s(rest, times, ports.drop_first(), stack))
            },
            TokenType::Output => if ports.len() == 0 {
                Err(CompileError::PortQueueUnderflow)
            } else {
                cons_line(line_output(ports[0]), gen_s(rest, times, ports.drop_first(), stack))
            },
            TokenType::LoopCounter => cons_line(
                line_counter(el.og_token),
                gen_s(rest, times, ports, stack),
            ),
            TokenType::Push => cons_line("PSH R1"@, gen_s(rest, times, ports, stack)),
            TokenType::Pop => cons_line("POP R1"@, gen_s(rest, times, ports, stack)),
            TokenType::Number => gen_s(rest, times, ports, stack),
            TokenType::StartNumber => cons_line(Seq::empty(), gen_s(rest, times, ports, stack)),
            TokenType::Extra => cons_line(Seq::empty(), gen_s(rest, times, ports, stack)),
        }
    }
}

/// The emitted lines joined with single newlines.
pub open spec fn join_nl(lines: Seq<Seq<char>>) -> Seq<char>
    decreases lines.len(),
{
    if lines.len() == 0 {
        Seq::empty()
    } else if lines.len() == 1 {
        lines[0]
    } else {
        join_nl(lines.drop_last()) + seq!['\n'] + lines.last()
    }
}

/// The whole generated program: the lines of the stream, a trailing halt
/// unless suppressed, joined with newlines.
pub open spec fn urcl_spec(
    os: Seq<OptiToken>,
    times: Seq<u16>,
    ports: Seq<Seq<char>>,
    no_hlt: bool,
) -> Result<Seq<char>, CompileError> {
    match gen_s(os, times, ports, Seq::empty()) {
        Ok(lines) => Ok(
            join_nl(
                if no_hlt {
                    lines
                } else {
                    lines.push("HLT"@)
                },
            ),
        ),
        Err(e) => Err(e),
    }
}

/// Prepends a whole line prefix to the lines of a generation result.
pub open spec fn cons_all(pre: Seq<Seq<char>>, rest: Result<Seq<Seq<char>>, CompileError>) -> Result<
    Seq<Seq<char>>,
    CompileError,
> {
    match rest {
        Ok(ls) => Ok(pre + ls),
        Err(e) => Err(e),
    }
}

/// Moving one line from the result into the prefix keeps the total.
proof fn lemma_cons_all_line(
    pre: Seq<Seq<char>>,
    l: Seq<char>,
    rest: Result<Seq<Seq<char>>, CompileError>,
)
    ensures
        cons_all(pre.push(l), rest) == cons_all(pre, cons_line(l, rest)),
{
    match rest {
        Ok(ls) => {
            assert(pre.push(l) + ls =~= pre + (seq![l] + ls));
        },
        Err(e) => {},
    }
}

/// Dropping the front string drops the front of the deep view.
proof fn lemma_deep_view_drop_first(a: Vec<String>, b: Vec<String>)
    requires
        a@.len() > 0,
        b@ == a@.drop_first(),
    ensures
        b.deep_view() == a.deep_view().drop_first(),
        a.deep_view().len() > 0,
        a.deep_view()[0] == a@[0]@,
{
    assert(b.deep_view() =~= a.deep_view().drop_first()) by {
        assert forall|i: int| 0 <= i < b@.len() implies b.deep_view()[i] == a.deep_view().drop_first()[i] by {
            assert(b@[i] == a@[i + 1]);
        }
    }
}

/// Builds the loop-open block at run time.
fn line_open_x(tok: Token, t: u16) -> (r: String)
    ensures
        r@ == line_open(tok, t),
{
    let id = i64_to_string(tok.loop_id);
    if t == INFINITE_LOOP {
        let mut s = ".loop".to_owned();
        s.append(id.as_str());
        s
    } else if t == CONDITIONAL_LOOP {
        let mut s = "BRZ .loop".to_owned();
        s.append(id.as_str());
        s.append("_e R1\nMOV R");
        s.append(i64_to_string(tok.loop_layer.wrapping_add(2)).as_str());
        s.append(" R1\n.loop");
        s.append(id.as_str());
        s
    } else {
        let mut s = "BRZ .loop".to_owned();
        s.append(id.as_str());
        s.append("_e R1\nMOV R");
        s.append(i64_to_string(tok.loop_layer.wrapping_add(2)).as_str());
        s.append(" ");
        s.append(u64_to_string(t as u64).as_str());
        s.append("\n.loop");
        s.append(id.as_str());
        s
    }
}

/// Builds the loop-end block at run time.
fn line_end_x(tok: Token, t: u16) -> (r: String)
    ensures
        r@ == line_end(tok, t),
{
    let id = i64_to_string(tok.loop_id);
    if t == INFINITE_LOOP {
        let mut s = "JMP .loop".to_owned();
        s.append(id.as_str());
        s
    } else {
        let reg = i64_to_string(tok.loop_layer.wrapping_add(3));
        let mut s = "DEC R".to_owned();
        s.append(reg.as_str());
        s.append(" R");
        s.append(reg.as_str());
        s.append("\nBNZ .loop");
        s.append(id.as_str());
        s.append(" R");
        s.append(reg.as_str());
        s.append("\n.loop");
        s.append(id.as_str());
        s.append("_e");
        s
    }
}

/// Joins the emitted lines with single newlines.
fn join_lines(lines: &Vec<String>) -> (r: String)
    ensures
        r@ == join_nl(lines.deep_view()),
{
    proof {
        reveal_strlit("\n");
    }
    let mut s = String::new();
    let mut i: usize = 0;
    proof {
        assert(lines.deep_view().take(0) =~= Seq::<Seq<char>>::empty());
    }
    while i < lines.len()
        invariant
            i <= lines.len(),
            s@ == join_nl(lines.deep_view().take(i as int)),
            "\n"@ == seq!['\n'],
        decreases lines.len() - i,
    {
        if i > 0 {
            s.append("\n");
        }
        s.append(lines[i].as_str());
        proof {
            let dv = lines.deep_view();
            assert(dv.take(i as int + 1).drop_last() =~= dv.take(i as int));
            assert(dv.take(i as int + 1).last() == dv[i as int]);
            assert(dv[i as int] == lines@[i as int]@);
        }
        i += 1;
    }
    proof {
        assert(lines.deep_view().take(lines.len() as int) =~= lines.deep_view());
    }
    s
}

/// Generates the target text for a weighted token stream.  The queues are
/// consumed front first, one repetition entry per loop open and one port
/// name per input or output; the numeric-literal queue travels along but is
/// never read here, numbers having been resolved during lexing.  The result
/// is the spec-level generation outcome: the joined program text, or the
/// first underflow met.
pub fn token_to_urcl(
    token_list: Vec<OptiToken>,
    loop_time_ref: Vec<u16>,
    number_ref: Vec<u8>,
    port_name_ref: Vec<String>,
    no_hlt_enabled: bool,
) -> (r: Result<String, CompileError>)
    ensures
        ({
            let s = urcl_spec(token_list@, loop_time_ref@, port_name_ref.deep_view(), no_hlt_enabled);
            match r {
                Ok(out) => s is Ok && out@ == s->Ok_0,
                Err(e) => s is Err && e == s->Err_0,
            }
        }),
{
    let ghost times0 = loop_time_ref@;
    let ghost ports0 = port_name_ref.deep_view();
    let mut times = loop_time_ref;
    let mut ports = port_name_ref;
    let mut tmp_stack: Vec<u16> = Vec::new();
    let mut lines: Vec<String> = Vec::new();
    let n = token_list.len();
    let mut i: usize = 0;
    proof {
        assert(token_list@.skip(0) =~= token_list@);
        assert(lines.deep_view() =~= Seq::<Seq<char>>::empty());
        assert(cons_all(lines.deep_view(), gen_s(token_list@, times0, ports0, Seq::empty()))
            == gen_s(token_list@, times0, ports0, Seq::empty())) by {
            match gen_s(token_list@, times0, ports0, Seq::<u16>::empty()) {
                Ok(ls) => {
                    assert(Seq::<Seq<char>>::empty() + ls =~= ls);
                },
                Err(e) => {},
            }
        }
    }
    while i < n
        invariant
            i <= n,
            n == token_list.len(),
            times0 == loop_time_ref@,
            ports0 == port_name_ref.deep_view(),
            cons_all(
                lines.deep_view(),
                gen_s(token_list@.skip(i as int), times@, ports.deep_view(), tmp_stack@),
            ) == gen_s(token_list@, times0, ports0, Seq::empty()),
        decreases n - i,
    {
        let el = token_list[i];
        let ghost rest = token_list@.skip(i as int);
        proof {
            assert(rest[0] == token_list@[i as int]);
            assert(rest.drop_first() =~= token_list@.skip(i as int + 1));
        }
        let ghost lines_pre = lines.deep_view();
        let ghost suffix = gen_s(rest.drop_first(), times@, ports.deep_view(), tmp_stack@);
        match el.og_token.token_type {
            TokenType::SkipNext => {
                let ghost old_lines = lines;
                let line = "BRZ ~+2 R1".to_owned();
                lines.push(line);
                proof {
                    lemma_deep_view_push(old_lines, lines, line);
                    lemma_cons_all_line(lines_pre, line_skipnext(), suffix);
                }
            },
            TokenType::Add => {
                let ghost old_lines = lines;
                let mut line = "ADD R1 R1 ".to_owned();
                line.append(u64_to_string(el.repeated as u64).as_str());
                lines.push(line);
                proof {
                    lemma_deep_view_push(old_lines, lines, line);
                    lemma_cons_all_line(lines_pre, line_additive(TokenType::Add, el.repeated), suffix);
                }
            },
            TokenType::Subtract => {
                let ghost old_lines = lines;
                let mut line = "SUB R1 R1 ".to_owned();
                line.append(u64_to_string(el.repeated as u64).as_str());
                lines.push(line);
                proof {
                    lemma_deep_view_push(old_lines, lines, line);
                    lemma_cons_all_line(
                        lines_pre,
                        line_additive(TokenType::Subtract, el.repeated),
                        suffix,
                    );
                }
            },
            TokenType::OpenLoop => {
                match pop_first(&mut times) {
                    None => {
                        proof {
                            assert(gen_s(rest, times@, ports.deep_view(), tmp_stack@) == Err::<
                                Seq<Seq<char>>,
                                CompileError,
                            >(CompileError::RepetitionQueueUnderflow));
                        }
                        return Err(CompileError::RepetitionQueueUnderflow);
                    },
                    Some(t) => {
                        tmp_stack.push(t);
                        let ghost old_lines = lines;
                        let line = line_open_x(el.og_token, t);
                        lines.push(line);
                        proof {
                            lemma_deep_view_push(old_lines, lines, line);
                            lemma_cons_all_line(
                                lines_pre,
                                line_open(el.og_token, t),
                                gen_s(
                                    rest.drop_first(),
                                    times@,
                                    ports.deep_view(),
                                    tmp_stack@,
                                ),
                            );
                        }
                    },
                }
            },
            TokenType::EndLoop => {
                match tmp_stack.pop() {
                    None => {
                        proof {
                            assert(gen_s(rest, times@, ports.deep_view(), tmp_stack@) == Err::<
                                Seq<Seq<char>>,
                                CompileError,
                            >(CompileError::LoopStackUnderflow));
                        }
                        return Err(CompileError::LoopStackUnderflow);
                    },
                    Some(t) => {
                        let ghost old_lines = lines;
                        let line = line_end_x(el.og_token, t);
                        lines.push(line);
                        proof {
                            lemma_deep_view_push(old_lines, lines, line);
                            lemma_cons_all_line(
                                lines_pre,
                                line_end(el.og_token, t),
                                gen_s(
                                    rest.drop_first(),
                                    times@,
                                    ports.deep_view(),
                                    tmp_stack@,
                                ),
                            );
                        }
                    },
                }
            },
            TokenType::Input => {
                let ghost old_ports = ports;
                match pop_first(&mut ports) {
                    None => {
                        proof {
                            assert(gen_s(rest, times@, ports.deep_view(), tmp_stack@) == Err::<
                                Seq<Seq<char>>,
                                CompileError,
                            >(CompileError::PortQueueUnderflow));
                        }
                        return Err(CompileError::PortQueueUnderflow);
                    },
                    Some(p) => {
                        proof {
                            lemma_deep_view_drop_first(old_ports, ports);
                        }
                        let ghost old_lines = lines;
                        let mut line = "IN R1 ".to_owned();
                        line.append(p.as_str());
                        lines.push(line);
                        proof {
                            lemma_deep_view_push(old_lines, lines, line);
                            lemma_cons_all_line(
                                lines_pre,
                                line_input(old_ports.deep_view()[0]),
                                gen_s(rest.drop_first(), times@, ports.deep_view(), tmp_stack@),
                            );
                        }
                    },
                }
            },
            TokenType::Output => {
                let ghost old_ports = ports;
                match pop_first(&mut ports) {
                    None => {
                        proof {
                            assert(gen_s(rest, times@, ports.deep_view(), tmp_stack@) == Err::<
                                Seq<Seq<char>>,
                                CompileError,
                            >(CompileError::PortQueueUnderflow));
                        }
                        return Err(CompileError::PortQueueUnderflow);
                    },
                    Some(p) => {
                        proof {
                            lemma_deep_view_drop_first(old_ports, ports);
                        }
                        let ghost old_lines = lines;
                        let mut line = "OUT ".to_owned();
                        line.append(p.as_str());
                        line.append(" R1");
                        lines.push(line);
                        proof {
                            lemma_deep_view_push(old_lines, lines, line);
                            lemma_cons_all_line(
                                lines_pre,
                                line_output(old_ports.deep_view()[0]),
                                gen_s(rest.drop_first(), times@, ports.deep_view(), tmp_stack@),
                            );
                        }
                    },
                }
            },
            TokenType::LoopCounter => {
                let ghost old_lines = lines;
                let mut line = "MOV R1 R".to_owned();
                line.append(i64_to_string(el.og_token.loop_layer.wrapping_add(2)).as_str());
                lines.push(line);
                proof {
                    lemma_deep_view_push(old_lines, lines, line);
                    lemma_cons_all_line(lines_pre, line_counter(el.og_token), suffix);
                }
            },
            TokenType::Push => {
                let ghost old_lines = lines;
                let line = "PSH R1".to_owned();
                lines.push(line);
                proof {
                    lemma_deep_view_push(old_lines, lines, line);
                    lemma_cons_all_line(lines_pre, "PSH R1"@, suffix);
                }
            },
            TokenType::Pop => {
                let ghost old_lines = lines;
                let line = "POP R1".to_owned();
                lines.push(line);
                proof {
                    lemma_deep_view_push(old_lines, lines, line);
                    lemma_cons_all_line(lines_pre, "POP R1"@, suffix);
                }
            },
            TokenType::Number => {
            },
            TokenType::StartNumber => {
                let ghost old_lines = lines;
                let line = String::new();
                lines.push(line);
                proof {
                    lemma_deep_view_push(old_lines, lines, line);
                    lemma_cons_all_line(lines_pre, Seq::empty(), suffix);
                }
            },
            TokenType::Extra => {
                let ghost old_lines = lines;
                let line = String::new();
                lines.push(line);
                proof {
                    lemma_deep_view_push(old_lines, lines, line);
                    lemma_cons_all_line(lines_pre, Seq::empty(), suffix);
                }
            },
        }
        i += 1;
    }
    proof {
        assert(token_list@.skip(n as int) =~= Seq::<OptiToken>::empty());
        match gen_s(token_list@, times0, ports0, Seq::<u16>::empty()) {
            Ok(ls) => {
                assert(lines.deep_view() + Seq::<Seq<char>>::empty() =~= lines.deep_view());
            },
            Err(e) => {},
        }
    }
    if !no_hlt_enabled {
        let ghost old_lines = lines;
        let line = "HLT".to_owned();
        lines.push(line);
        proof {
            lemma_deep_view_push(old_lines, lines, line);
        }
    }
    Ok(join_lines(&lines))
}

} // verus!
