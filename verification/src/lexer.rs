//! The lexer: one left-to-right scan over the source bytes that produces the
//! token stream and the three side queues (loop repetition counts, numeric
//! literal values, port names).
//!
//! The spec model is `lex_step`, a transition function over `LexSt`, folded
//! over the input by `lex_s`.  The executable `Lexer` mirrors the model field
//! by field and `Lexer::step` is proved to implement `lex_step` exactly.

use crate::numfmt::dec_digits;
use crate::tokens::{
    extra_token, CompileError, Token, TokenHandler, TokenType, CONDITIONAL_LOOP, INFINITE_LOOP,
};
use vstd::prelude::*;
use vstd::utf8::{decode_utf8, encode_utf8, encode_utf8_decode_utf8, valid_utf8};

verus! {

/// Fallback reading of a captured port name that is not valid UTF-8: one
/// character per byte, at the byte's own code point.
pub open spec fn chars_of_bytes(s: Seq<u8>) -> Seq<char> {
    s.map_values(|b: u8| b as char)
}

/// The characters of a captured port name: its UTF-8 decoding when the
/// bytes are valid UTF-8, and the byte-per-character fallback otherwise.
pub open spec fn port_chars(s: Seq<u8>) -> Seq<char> {
    if valid_utf8(s) {
        decode_utf8(s)
    } else {
        chars_of_bytes(s)
    }
}

/// Spec-level state of the lexer.
#[verifier::ext_equal]
pub ghost struct LexSt {
    /// Current mode of the byte dispatcher.
    pub mode: TokenHandler,
    /// First hex digit of a numeric literal in progress.
    pub char_buf: u8,
    /// True between the first and the second hex digit of a literal.
    pub be_number: bool,
    /// Current nesting depth.
    pub layer: i64,
    /// Last loop identifier handed out.
    pub id: i64,
    /// The token most recently emitted or recorded for lookahead.
    pub prev: Token,
    /// Identifiers of the loops currently open, innermost last.
    pub stack: Seq<i64>,
    /// Bytes captured so far of a string port name.
    pub sbuf: Seq<u8>,
    /// Tokens emitted so far.
    pub tokens: Seq<Token>,
    /// Repetition-count queue: one entry per loop open.
    pub times: Seq<u16>,
    /// Numeric-literal queue: one entry per completed literal.
    pub numbers: Seq<u8>,
    /// Port-name queue: one entry per input or output token.
    pub ports: Seq<Seq<char>>,
    /// A loop-close byte arrived with no loop open.
    pub failed: bool,
}

/// The state the lexer starts from.
pub open spec fn lex_init() -> LexSt {
    LexSt {
        mode: TokenHandler::Normal,
        char_buf: 0,
        be_number: false,
        layer: 0,
        id: 0,
        prev: extra_token(),
        stack: Seq::empty(),
        sbuf: Seq::empty(),
        tokens: Seq::empty(),
        times: Seq::empty(),
        numbers: Seq::empty(),
        ports: Seq::empty(),
        failed: false,
    }
}

/// Appends a token with the current loop identifier and depth, and records it
/// as the previous token.
pub open spec fn lex_emit(st: LexSt, tt: TokenType) -> LexSt {
    let tok = Token { token_type: tt, loop_id: st.id, loop_layer: st.layer };
    LexSt { prev: tok, tokens: st.tokens.push(tok), ..st }
}

/// Opens a loop: records the repetition entry, allocates a fresh identifier,
/// deepens the nesting and emits the open token.
pub open spec fn lex_open_loop(st: LexSt, time: u16) -> LexSt {
    let id2 = st.id.wrapping_add(1);
    let st2 = LexSt {
        id: id2,
        layer: st.layer.wrapping_add(1),
        times: st.times.push(time),
        stack: st.stack.push(id2),
        ..st
    };
    lex_emit(st2, TokenType::OpenLoop)
}

/// Is the byte a hex digit (`0`-`9`, `A`-`F`, `a`-`f`)?
pub open spec fn is_hex_digit(b: u8) -> bool {
    (48 <= b && b <= 57) || (65 <= b && b <= 70) || (97 <= b && b <= 102)
}

/// Value of a hex digit byte.
pub open spec fn hex_val(b: u8) -> u8 {
    if 48 <= b && b <= 57 {
        (b - 48) as u8
    } else if 65 <= b && b <= 70 {
        (b - 55) as u8
    } else if 97 <= b && b <= 102 {
        (b - 87) as u8
    } else {
        0
    }
}

/// Completes a two-digit numeric literal whose first digit waits in
/// `char_buf`: the value joins the numeric queue and a number token is
/// emitted.
pub open spec fn lex_complete_number(st: LexSt, lo: u8) -> LexSt {
    let value = (hex_val(st.char_buf) * 16 + hex_val(lo)) as u8;
    lex_emit(LexSt { be_number: false, numbers: st.numbers.push(value), ..st }, TokenType::Number)
}

/// The port entry for an input or output byte in normal mode: the decimal
/// rendering of the most recent literal when one directly precedes, the
/// default text port otherwise.
pub open spec fn lex_port_entry(st: LexSt) -> Seq<char> {
    if st.prev.token_type == TokenType::Number {
        dec_digits(st.numbers.last() as int)
    } else {
        "%TEXT"@
    }
}

/// One byte in normal mode.
pub open spec fn lex_normal(st: LexSt, b: u8) -> LexSt {
    if b == 43 {  // +
        lex_emit(st, TokenType::Add)
    } else if b == 45 {  // -
        lex_emit(st, TokenType::Subtract)
    } else if b == 91 {  // [
        let time = if st.prev.token_type == TokenType::Number {
            st.numbers.last() as u16
        } else {
            INFINITE_LOOP
        };
        lex_open_loop(st, time)
    } else if b == 93 {  // ]
        if st.stack.len() == 0 {
            LexSt { failed: true, ..st }
        } else {
            let layer2 = st.layer.wrapping_sub(1);
            let tok = Token {
                token_type: TokenType::EndLoop,
                loop_id: st.stack.last(),
                loop_layer: layer2,
            };
            LexSt {
                layer: layer2,
                stack: st.stack.drop_last(),
                prev: tok,
                tokens: st.tokens.push(tok),
                ..st
            }
        }
    } else if b == 48 {  // 0
        if st.be_number {
            lex_complete_number(st, b)
        } else if st.prev.token_type == TokenType::StartNumber {
            LexSt { char_buf: b, be_number: true, ..st }
        } else {
            let tok = Token {
                token_type: TokenType::StartNumber,
                loop_id: st.id,
                loop_layer: st.layer,
            };
            LexSt { prev: tok, ..st }
        }
    } else if is_hex_digit(b) {  // 1-9, A-F, a-f
        if st.be_number {
            lex_complete_number(st, b)
        } else if st.prev.token_type == TokenType::StartNumber {
            LexSt { char_buf: b, be_number: true, ..st }
        } else {
            st
        }
    } else if b == 60 {  // <
        lex_emit(LexSt { ports: st.ports.push(lex_port_entry(st)), ..st }, TokenType::Input)
    } else if b == 62 {  // >
        lex_emit(LexSt { ports: st.ports.push(lex_port_entry(st)), ..st }, TokenType::Output)
    } else if b == 63 {  // ?
        LexSt { mode: TokenHandler::QuestionMark, ..st }
    } else if b == 37 {  // %
        LexSt { mode: TokenHandler::ParseString, sbuf: Seq::empty(), ..st }
    } else if b == 36 {  // $
        lex_emit(st, TokenType::LoopCounter)
    } else {
        st
    }
}

/// One byte in conditional-prefix mode; the mode always reverts to normal.
pub open spec fn lex_question(st: LexSt, b: u8) -> LexSt {
    let st2 = LexSt { mode: TokenHandler::Normal, ..st };
    if b == 60 {  // <
        lex_emit(st2, TokenType::Pop)
    } else if b == 62 {  // >
        lex_emit(st2, TokenType::Push)
    } else if b == 91 {  // [
        lex_open_loop(st2, CONDITIONAL_LOOP)
    } else {
        st2
    }
}

/// One byte while a string port name is being captured.
pub open spec fn lex_string(st: LexSt, b: u8) -> LexSt {
    if b == 37 {  // %
        LexSt { mode: TokenHandler::FromString, ..st }
    } else {
        LexSt { sbuf: st.sbuf.push(b), ..st }
    }
}

/// One byte right after a string port name closed; the mode always reverts to
/// normal.
pub open spec fn lex_from_string(st: LexSt, b: u8) -> LexSt {
    let st2 = LexSt { mode: TokenHandler::Normal, ..st };
    let name = seq!['%'] + port_chars(st.sbuf);
    if b == 60 {  // <
        lex_emit(LexSt { ports: st2.ports.push(name), ..st2 }, TokenType::Input)
    } else if b == 62 {  // >
        lex_emit(LexSt { ports: st2.ports.push(name), ..st2 }, TokenType::Output)
    } else {
        st2
    }
}

/// One byte of input.  A failed lexer ignores the rest of its input.
pub open spec fn lex_step(st: LexSt, b: u8) -> LexSt {
    if st.failed {
        st
    } else {
        match st.mode {
            TokenHandler::Normal => lex_normal(st, b),
            TokenHandler::QuestionMark => lex_question(st, b),
            TokenHandler::ParseString => lex_string(st, b),
            TokenHandler::FromString => lex_from_string(st, b),
        }
    }
}

/// Folds `lex_step` over a byte sequence.
pub open spec fn lex_s(st: LexSt, bs: Seq<u8>) -> LexSt
    decreases bs.len(),
{
    if bs.len() == 0 {
        st
    } else {
        lex_s(lex_step(st, bs[0]), bs.drop_first())
    }
}

/// The lexer's final state on an input.
pub open spec fn lex_spec(input: Seq<u8>) -> LexSt {
    lex_s(lex_init(), input)
}

/// A number as previous token implies the numeric queue is not empty, so the
/// most recent literal can be read.
pub open spec fn lex_wf(st: LexSt) -> bool {
    st.prev.token_type == TokenType::Number ==> st.numbers.len() > 0
}

/// Pushing a string pushes its characters on the deep view.
pub(crate) proof fn lemma_deep_view_push(a: Vec<String>, b: Vec<String>, s: String)
    requires
        b@ == a@.push(s),
    ensures
        b.deep_view() == a.deep_view().push(s@),
{
    assert(b.deep_view() =~= a.deep_view().push(s@)) by {
        assert forall|i: int| 0 <= i < b@.len() implies b.deep_view()[i] == a.deep_view().push(
            s@,
        )[i] by {
            if i < a@.len() {
                assert(b@[i] == a@[i]);
            } else {
                assert(b@[i] == s);
            }
        }
    }
}

/// Relies on String::push: appends exactly the one character to the string.
#[verifier::external_body]
fn push_char(s: &mut String, c: char)
    ensures
        final(s)@ == old(s)@.push(c),
{
    s.push(c);
}

/// Relies on core::str::from_utf8: it succeeds exactly on valid UTF-8, and
/// the returned slice reads the same bytes.
#[verifier::external_body]
fn bytes_to_str<'a>(v: &'a Vec<u8>) -> (r: Option<&'a str>)
    ensures
        match r {
            Some(s) => valid_utf8(v@) && encode_utf8(s@) == v@,
            None => !valid_utf8(v@),
        },
{
    match core::str::from_utf8(v.as_slice()) {
        Ok(s) => Some(s),
        Err(_) => None,
    }
}

/// Builds the stored name for a string-escaped port: a `%` prefix followed by
/// the captured bytes, decoded as UTF-8 when they are valid UTF-8 and read
/// one character per byte otherwise.
fn port_name_string(buf: &Vec<u8>) -> (r: String)
    ensures
        r@ == seq!['%'] + port_chars(buf@),
{
    proof {
        reveal_strlit("%");
    }
    let mut s = "%".to_owned();
    match bytes_to_str(buf) {
        Some(t) => {
            s.append(t);
            proof {
                encode_utf8_decode_utf8(t@);
                assert(s@ =~= seq!['%'] + port_chars(buf@));
            }
        },
        None => {
            let mut i: usize = 0;
            while i < buf.len()
                invariant
                    i <= buf.len(),
                    s@ == seq!['%'] + chars_of_bytes(buf@.take(i as int)),
                decreases buf.len() - i,
            {
                push_char(&mut s, buf[i] as char);
                proof {
                    assert(chars_of_bytes(buf@.take(i as int + 1)) =~= chars_of_bytes(
                        buf@.take(i as int),
                    ).push(buf@[i as int] as char));
                    assert(s@ =~= seq!['%'] + chars_of_bytes(buf@.take(i as int + 1)));
                }
                i += 1;
            }
            proof {
                assert(buf@.take(buf.len() as int) =~= buf@);
            }
        },
    }
    s
}

/// Is the byte a hex digit?
fn is_hex_digit_x(b: u8) -> (r: bool)
    ensures
        r == is_hex_digit(b),
{
    (48 <= b && b <= 57) || (65 <= b && b <= 70) || (97 <= b && b <= 102)
}

/// Value of a hex digit byte.
fn hex_val_x(b: u8) -> (v: u8)
    ensures
        v == hex_val(b),
        v <= 15,
{
    if 48 <= b && b <= 57 {
        b - 48
    } else if 65 <= b && b <= 70 {
        b - 55
    } else if 97 <= b && b <= 102 {
        b - 87
    } else {
        0
    }
}

/// The executable lexer state; each field mirrors one field of `LexSt`.
pub struct Lexer {
    pub mode: TokenHandler,
    pub char_buf: u8,
    pub be_number: bool,
    pub layer: i64,
    pub id: i64,
    pub prev: Token,
    pub stack: Vec<i64>,
    pub sbuf: Vec<u8>,
    pub tokens: Vec<Token>,
    pub times: Vec<u16>,
    pub numbers: Vec<u8>,
    pub ports: Vec<String>,
    pub failed: bool,
}

impl Lexer {
    /// The spec state this lexer stands in.
    pub open spec fn st(&self) -> LexSt {
        LexSt {
            mode: self.mode,
            char_buf: self.char_buf,
            be_number: self.be_number,
            layer: self.layer,
            id: self.id,
            prev: self.prev,
            stack: self.stack@,
            sbuf: self.sbuf@,
            tokens: self.tokens@,
            times: self.times@,
            numbers: self.numbers@,
            ports: self.ports.deep_view(),
            failed: self.failed,
        }
    }

    /// A fresh lexer.
    pub fn new() -> (r: Lexer)
        ensures
            r.st() == lex_init(),
    {
        let r = Lexer {
            mode: TokenHandler::Normal,
            char_buf: 0,
            be_number: false,
            layer: 0,
            id: 0,
            prev: Token { token_type: TokenType::Extra, loop_id: 0, loop_layer: 0 },
            stack: Vec::new(),
            sbuf: Vec::new(),
            tokens: Vec::new(),
            times: Vec::new(),
            numbers: Vec::new(),
            ports: Vec::new(),
            failed: false,
        };
        proof {
            assert(r.ports.deep_view() =~= Seq::<Seq<char>>::empty());
            assert(r.st() =~= lex_init());
        }
        r
    }

    /// Emits one token with the current identifier and depth.
    fn emit(&mut self, tt: TokenType)
        ensures
            final(self).st() == lex_emit(old(self).st(), tt),
    {
        let tok = Token { token_type: tt, loop_id: self.id, loop_layer: self.layer };
        self.prev = tok;
        self.tokens.push(tok);
        proof {
            assert(self.st() =~= lex_emit(old(self).st(), tt));
        }
    }

    /// Opens a loop with the given repetition entry.
    fn open_loop(&mut self, time: u16)
        ensures
            final(self).st() == lex_open_loop(old(self).st(), time),
    {
        self.times.push(time);
        self.id = self.id.wrapping_add(1);
        self.layer = self.layer.wrapping_add(1);
        let id = self.id;
        self.stack.push(id);
        self.emit(TokenType::OpenLoop);
    }

    /// Completes a numeric literal with its second hex digit.
    fn complete_number(&mut self, lo: u8)
        ensures
            final(self).st() == lex_complete_number(old(self).st(), lo),
    {
        let value = hex_val_x(self.char_buf) * 16 + hex_val_x(lo);
        self.be_number = false;
        self.numbers.push(value);
        self.emit(TokenType::Number);
    }

    /// The port entry for an input or output byte in normal mode.
    fn port_entry(&self) -> (r: String)
        requires
            lex_wf(self.st()),
        ensures
            r@ == lex_port_entry(self.st()),
    {
        if self.prev.token_type == TokenType::Number {
            let n = self.numbers[self.numbers.len() - 1];
            crate::numfmt::u64_to_string(n as u64)
        } else {
            "%TEXT".to_owned()
        }
    }

    /// Processes one input byte.
    pub fn step(&mut self, b: u8)
        requires
            lex_wf(old(self).st()),
        ensures
            final(self).st() == lex_step(old(self).st(), b),
            lex_wf(final(self).st()),
    {
        if self.failed {
            return ;
        }
        match self.mode {
            TokenHandler::QuestionMark => {
                self.mode = TokenHandler::Normal;
                proof {
                    assert(self.st() =~= (LexSt { mode: TokenHandler::Normal, ..old(self).st() }));
                }
                if b == 60 {
                    self.emit(TokenType::Pop);
                } else if b == 62 {
                    self.emit(TokenType::Push);
                } else if b == 91 {
                    self.open_loop(CONDITIONAL_LOOP);
                }
            },
            TokenHandler::ParseString => {
                if b == 37 {
                    self.mode = TokenHandler::FromString;
                    proof {
                        assert(self.st() =~= lex_step(old(self).st(), b));
                    }
                } else {
                    self.sbuf.push(b);
                    proof {
                        assert(self.st() =~= lex_step(old(self).st(), b));
                    }
                }
            },
            TokenHandler::FromString => {
                self.mode = TokenHandler::Normal;
                proof {
                    assert(self.st() =~= (LexSt { mode: TokenHandler::Normal, ..old(self).st() }));
                }
                if b == 60 || b == 62 {
                    let name = port_name_string(&self.sbuf);
                    let ghost before = self.st();
                    let ghost old_ports = self.ports;
                    self.ports.push(name);
                    proof {
                        lemma_deep_view_push(old_ports, self.ports, name);
                        assert(self.st() =~= (LexSt {
                            ports: before.ports.push(name@),
                            ..before
                        }));
                    }
                    self.emit(if b == 60 {
                        TokenType::Input
                    } else {
                        TokenType::Output
                    });
                }
            },
            TokenHandler::Normal => {
                if b == 43 {
                    self.emit(TokenType::Add);
                } else if b == 45 {
                    self.emit(TokenType::Subtract);
                } else if b == 91 {
                    let time: u16 = if self.prev.token_type == TokenType::Number {
                        self.numbers[self.numbers.len() - 1] as u16
                    } else {
                        INFINITE_LOOP
                    };
                    self.open_loop(time);
                } else if b == 93 {
                    match self.stack.pop() {
                        None => {
                            self.failed = true;
                            proof {
                                assert(self.st() =~= lex_step(old(self).st(), b));
                            }
                        },
                        Some(id) => {
                            self.layer = self.layer.wrapping_sub(1);
                            let tok = Token {
                                token_type: TokenType::EndLoop,
                                loop_id: id,
                                loop_layer: self.layer,
                            };
                            self.prev = tok;
                            self.tokens.push(tok);
                            proof {
                                assert(self.st() =~= lex_step(old(self).st(), b));
                            }
                        },
                    }
                } else if b == 48 {
                    if self.be_number {
                        self.complete_number(b);
                    } else if self.prev.token_type == TokenType::StartNumber {
                        self.char_buf = b;
                        self.be_number = true;
                        proof {
                            assert(self.st() =~= lex_step(old(self).st(), b));
                        }
                    } else {
                        self.prev = Token {
                            token_type: TokenType::StartNumber,
                            loop_id: self.id,
                            loop_layer: self.layer,
                        };
                        proof {
                            assert(self.st() =~= lex_step(old(self).st(), b));
                        }
                    }
                } else if is_hex_digit_x(b) {
                    if self.be_number {
                        self.complete_number(b);
                    } else if self.prev.token_type == TokenType::StartNumber {
                        self.char_buf = b;
                        self.be_number = true;
                        proof {
                            assert(self.st() =~= lex_step(old(self).st(), b));
                        }
                    }
                } else if b == 60 || b == 62 {
                    let entry = self.port_entry();
                    let ghost before = self.st();
                    let ghost old_ports = self.ports;
                    self.ports.push(entry);
                    proof {
                        lemma_deep_view_push(old_ports, self.ports, entry);
                        assert(self.st() =~= (LexSt { ports: before.ports.push(entry@), ..before }));
                    }
                    self.emit(if b == 60 {
                        TokenType::Input
                    } else {
                        TokenType::Output
                    });
                } else if b == 63 {
                    self.mode = TokenHandler::QuestionMark;
                    proof {
                        assert(self.st() =~= lex_step(old(self).st(), b));
                    }
                } else if b == 37 {
                    self.sbuf.clear();
                    self.mode = TokenHandler::ParseString;
                    proof {
                        assert(self.st() =~= lex_step(old(self).st(), b));
                    }
                } else if b == 36 {
                    self.emit(TokenType::LoopCounter);
                }
            },
        }
    }
}

/// What the lexer hands to the later stages: the token stream and the three
/// side queues.
pub struct LexOutput {
    pub tokens: Vec<Token>,
    pub loop_times: Vec<u16>,
    pub numbers: Vec<u8>,
    pub port_names: Vec<String>,
}

/// Runs the lexer over a whole input.  It fails exactly when a loop-close
/// byte arrives with no loop open; otherwise its outputs are the ones of the
/// spec-level scan.
pub fn lex(input: &Vec<u8>) -> (r: Result<LexOutput, CompileError>)
    ensures
        ({
            let fin = lex_spec(input@);
            match r {
                Ok(out) => !fin.failed && out.tokens@ == fin.tokens && out.loop_times@ == fin.times
                    && out.numbers@ == fin.numbers && out.port_names.deep_view() == fin.ports,
                Err(e) => fin.failed && e == CompileError::UnbalancedClose,
            }
        }),
{
    let mut lx = Lexer::new();
    let n = input.len();
    let mut i: usize = 0;
    proof {
        assert(input@.skip(0) =~= input@);
    }
    while i < n
        invariant
            i <= n,
            n == input.len(),
            lex_wf(lx.st()),
            lex_s(lx.st(), input@.skip(i as int)) == lex_spec(input@),
        decreases n - i,
    {
        let b = input[i];
        proof {
            assert(input@.skip(i as int)[0] == input@[i as int]);
            assert(input@.skip(i as int).drop_first() =~= input@.skip(i as int + 1));
        }
        lx.step(b);
        i += 1;
    }
    proof {
        assert(input@.skip(n as int) =~= Seq::<u8>::empty());
    }
    if lx.failed {
        Err(CompileError::UnbalancedClose)
    } else {
        Ok(
            LexOutput {
                tokens: lx.tokens,
                loop_times: lx.times,
                numbers: lx.numbers,
                port_names: lx.ports,
            },
        )
    }
}

} // verus!

