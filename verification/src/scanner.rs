//! The scanner: the character-by-character state machine that owns the
//! source text and a cursor, and produces the complete token sequence or
//! the first positioned error. Verified against `model::scan_spec`.
//!
//! The cursor counts characters, not bytes, so every lexeme is a slice of
//! the source at character boundaries and is always well-formed text: the
//! malformed-slice failure a byte-oriented cursor would have to guard
//! against cannot arise. A non-ASCII character outside a string literal or
//! comment matches no rule and is reported as an unexpected token.

use vstd::prelude::*;
use vstd::string::StrSliceExecFns;
use vstd::string::StringExecFns;

use crate::error::ErrorView;
use crate::error::RloxErrorDetail;
use crate::keywords::keyword_or_identifier;
use crate::model::alnum_run_end;
use crate::model::digit_run_end;
use crate::model::eof_token;
use crate::model::is_alnum_char;
use crate::model::is_alpha_char;
use crate::model::is_digit_char;
use crate::model::is_skip_lexeme;
use crate::model::lemma_comment_newlines;
use crate::model::lemma_identifier_newlines;
use crate::model::lemma_newlines_extend;
use crate::model::lemma_newlines_one;
use crate::model::lemma_newlines_split;
use crate::model::lemma_number_newlines;
use crate::model::lexeme_end;
use crate::model::lexeme_error;
use crate::model::line_comment_end;
use crate::model::newlines_between;
use crate::model::number_end;
use crate::model::peek_at;
use crate::model::plain_token;
use crate::model::prepend_tokens;
use crate::model::scan_from;
use crate::model::scan_spec;
use crate::model::string_close;
use crate::token::Literal;
use crate::token::LiteralView;
use crate::token::Token;
use crate::token::TokenType;
use crate::token::TokenView;
use crate::token::literal_view;

verus! {

/// The tokens a scan added between two scanner states, as their
/// mathematical values.
pub open spec fn tokens_delta(pre: Scanner, post: Scanner) -> Seq<TokenView> {
    post.tokens@.subrange(pre.tokens@.len() as int, post.tokens@.len() as int).map_values(
        |t: Token| t@,
    )
}

/// One successful lexeme step: the buffers and the lexeme start are
/// untouched, the cursor advanced, the earlier tokens are still there, and
/// the model's scan from the old position is exactly the newly appended
/// tokens followed by the model's scan from the new position.
pub open spec fn step_ok(pre: Scanner, post: Scanner) -> bool {
    &&& post.wf()
    &&& post.source == pre.source
    &&& post.chars == pre.chars
    &&& post.start == pre.start
    &&& pre.current < post.current
    &&& pre.tokens@.len() <= post.tokens@.len()
    &&& post.tokens@.subrange(0, pre.tokens@.len() as int) == pre.tokens@
    &&& scan_from(pre.source@, pre.current as int, pre.line as int) == prepend_tokens(
        tokens_delta(pre, post),
        scan_from(post.source@, post.current as int, post.line as int),
    )
}

/// Putting no tokens in front of a scan outcome leaves it as it is.
proof fn lemma_prepend_empty(r: Result<Seq<TokenView>, ErrorView>)
    ensures
        prepend_tokens(Seq::empty(), r) == r,
{
    match r {
        Ok(rest) => {
            assert(Seq::<TokenView>::empty() + rest =~= rest);
        },
        Err(_) => {},
    }
}

/// Tokens put in front one batch after the other are the two batches put
/// in front together.
proof fn lemma_prepend_assoc(
    a: Seq<TokenView>,
    b: Seq<TokenView>,
    r: Result<Seq<TokenView>, ErrorView>,
)
    ensures
        prepend_tokens(a, prepend_tokens(b, r)) == prepend_tokens(a + b, r),
{
    match r {
        Ok(rest) => {
            assert(a + (b + rest) =~= (a + b) + rest);
        },
        Err(_) => {},
    }
}

/// A step that appended exactly one token, whose view ties the model
/// equation together.
proof fn lemma_step_single(pre: Scanner, post: Scanner)
    requires
        post.wf(),
        post.source == pre.source,
        post.chars == pre.chars,
        post.start == pre.start,
        pre.current < post.current,
        post.tokens@.len() == pre.tokens@.len() + 1,
        post.tokens@.subrange(0, pre.tokens@.len() as int) == pre.tokens@,
        scan_from(pre.source@, pre.current as int, pre.line as int) == prepend_tokens(
            seq![post.tokens@.last()@],
            scan_from(post.source@, post.current as int, post.line as int),
        ),
    ensures
        step_ok(pre, post),
{
    assert(tokens_delta(pre, post) =~= seq![post.tokens@.last()@]);
}

/// A step that appended no token and leaves the model's answer unchanged.
proof fn lemma_step_skip(pre: Scanner, post: Scanner)
    requires
        post.wf(),
        post.source == pre.source,
        post.chars == pre.chars,
        post.start == pre.start,
        pre.current < post.current,
        post.tokens == pre.tokens,
        scan_from(pre.source@, pre.current as int, pre.line as int) == scan_from(
            post.source@,
            post.current as int,
            post.line as int,
        ),
    ensures
        step_ok(pre, post),
{
    assert(post.tokens@.subrange(0, pre.tokens@.len() as int) =~= pre.tokens@);
    assert(tokens_delta(pre, post) =~= Seq::<TokenView>::empty());
    lemma_prepend_empty(scan_from(post.source@, post.current as int, post.line as int));
}

/// Two lexeme steps compose: the appended tokens concatenate and the model
/// equation carries through.
proof fn lemma_scan_compose(orig: Scanner, mid: Scanner, post: Scanner)
    requires
        orig.source == mid.source,
        mid.source == post.source,
        orig.tokens@.len() <= mid.tokens@.len() <= post.tokens@.len(),
        mid.tokens@.subrange(0, orig.tokens@.len() as int) == orig.tokens@,
        post.tokens@.subrange(0, mid.tokens@.len() as int) == mid.tokens@,
        scan_from(orig.source@, orig.current as int, orig.line as int) == prepend_tokens(
            tokens_delta(orig, mid),
            scan_from(mid.source@, mid.current as int, mid.line as int),
        ),
        scan_from(mid.source@, mid.current as int, mid.line as int) == prepend_tokens(
            tokens_delta(mid, post),
            scan_from(post.source@, post.current as int, post.line as int),
        ),
    ensures
        post.tokens@.subrange(0, orig.tokens@.len() as int) == orig.tokens@,
        scan_from(orig.source@, orig.current as int, orig.line as int) == prepend_tokens(
            tokens_delta(orig, post),
            scan_from(post.source@, post.current as int, post.line as int),
        ),
{
    assert forall|k: int| 0 <= k < mid.tokens@.len() implies post.tokens@[k] == mid.tokens@[k] by {
        assert(post.tokens@.subrange(0, mid.tokens@.len() as int)[k] == post.tokens@[k]);
    }
    assert forall|k: int| 0 <= k < orig.tokens@.len() implies mid.tokens@[k] == orig.tokens@[k] by {
        assert(mid.tokens@.subrange(0, orig.tokens@.len() as int)[k] == mid.tokens@[k]);
    }
    assert(post.tokens@.subrange(0, orig.tokens@.len() as int) =~= orig.tokens@);
    assert(tokens_delta(orig, post) =~= tokens_delta(orig, mid) + tokens_delta(mid, post));
    lemma_prepend_assoc(
        tokens_delta(orig, mid),
        tokens_delta(mid, post),
        scan_from(post.source@, post.current as int, post.line as int),
    );
}

/// The scanner's mutable state: the source text, the same text as its
/// character sequence for constant-time dispatch, the tokens produced so
/// far, the offset where the current lexeme begins, the scan cursor, and
/// the 1-based current line.
pub struct Scanner {
    /// The source text being scanned.
    pub source: String,
    /// The characters of `source`, kept in step with it.
    pub chars: Vec<char>,
    /// The tokens produced so far.
    pub tokens: Vec<Token>,
    /// The offset at which the current lexeme begins.
    pub start: usize,
    /// The scan cursor.
    pub current: usize,
    /// The 1-based line the cursor is on.
    pub line: usize,
}

impl Scanner {
    /// Internal consistency: the character buffer mirrors the source text,
    /// the lexeme start never passes the cursor, the cursor never passes
    /// the end, and the line counter stays 1-based and small enough that
    /// counting another newline cannot overflow.
    pub open spec fn wf(self) -> bool {
        &&& self.chars@ == self.source@
        &&& self.start <= self.current <= self.chars@.len()
        &&& self.chars@.len() < usize::MAX
        &&& 1 <= self.line <= self.current + 1
    }

    /// Builds a scanner over the given source, with the cursor at the
    /// beginning, on line 1, with no tokens yet. The length bound is a
    /// machine limit: the cursor and the line counter are kept in `usize`.
    pub fn new(source: String) -> (s: Scanner)
        requires
            source@.len() < usize::MAX,
        ensures
            s.wf(),
            s.source@ == source@,
            s.tokens@.len() == 0,
            s.start == 0,
            s.current == 0,
            s.line == 1,
    {
        let n = source.as_str().unicode_len();
        let mut chars: Vec<char> = Vec::new();
        let mut idx: usize = 0;
        proof {
            assert(chars@ =~= source@.take(0));
        }
        while idx < n
            invariant
                n == source@.len(),
                idx <= n,
                chars@ == source@.take(idx as int),
            decreases n - idx,
        {
            let c = source.as_str().get_char(idx);
            chars.push(c);
            idx = idx + 1;
            proof {
                assert(chars@ =~= source@.take(idx as int));
            }
        }
        proof {
            assert(chars@ =~= source@);
        }
        Scanner { source, chars, tokens: Vec::new(), start: 0, current: 0, line: 1 }
    }

    /// Whether the cursor has consumed the whole source.
    fn is_at_end(&self) -> (r: bool)
        requires
            self.wf(),
        ensures
            r == (self.current >= self.source@.len()),
    {
        self.current >= self.chars.len()
    }

    /// Whether `ch` is a decimal digit.
    fn is_digit(&self, ch: char) -> (r: bool)
        ensures
            r == is_digit_char(ch),
    {
        ch >= '0' && ch <= '9'
    }

    /// Whether `ch` may begin an identifier.
    fn is_alpha(&self, ch: char) -> (r: bool)
        ensures
            r == is_alpha_char(ch),
    {
        (ch >= 'A' && ch <= 'Z') || (ch >= 'a' && ch <= 'z') || ch == '_'
    }

    /// Whether `ch` may continue an identifier.
    fn is_alphanumeric(&self, ch: char) -> (r: bool)
        ensures
            r == is_alnum_char(ch),
    {
        self.is_alpha(ch) || self.is_digit(ch)
    }

    /// Consumes and returns the character at the cursor.
    fn advance(&mut self) -> (c: char)
        requires
            old(self).wf(),
            old(self).current < old(self).source@.len(),
        ensures
            final(self).wf(),
            c == old(self).source@[old(self).current as int],
            final(self).current == old(self).current + 1,
            final(self).source == old(self).source,
            final(self).chars == old(self).chars,
            final(self).tokens == old(self).tokens,
            final(self).start == old(self).start,
            final(self).line == old(self).line,
    {
        let res = self.chars[self.current];
        self.current = self.current + 1;
        res
    }

    /// The character at the cursor without consuming it, or the null
    /// character at the end of the source.
    fn peek(&self) -> (c: char)
        requires
            self.wf(),
        ensures
            c == peek_at(self.source@, self.current as int),
    {
        if self.is_at_end() {
            '\0'
        } else {
            self.chars[self.current]
        }
    }

    /// The character one past the cursor without consuming anything, or
    /// the null character if there is none.
    fn peek_next(&self) -> (c: char)
        requires
            self.wf(),
        ensures
            c == peek_at(self.source@, self.current as int + 1),
    {
        if self.is_at_end() {
            '\0'
        } else if self.current == self.chars.len() - 1 {
            '\0'
        } else {
            self.chars[self.current + 1]
        }
    }

    /// Consumes the character at the cursor exactly when it equals
    /// `expected`, reporting whether it did.
    fn is_next_char_match(&mut self, expected: char) -> (r: bool)
        requires
            old(self).wf(),
        ensures
            final(self).wf(),
            r == (old(self).current < old(self).source@.len() && old(self).source@[old(
                self,
            ).current as int] == expected),
            final(self).current == if r {
                old(self).current + 1
            } else {
                old(self).current as int
            },
            final(self).source == old(self).source,
            final(self).chars == old(self).chars,
            final(self).tokens == old(self).tokens,
            final(self).start == old(self).start,
            final(self).line == old(self).line,
    {
        if self.is_at_end() {
            return false;
        }
        if self.peek() != expected {
            return false;
        }
        self.current = self.current + 1;
        return true;
    }

    /// The source text between the two character positions, as an owned
    /// string. Slicing happens at character boundaries, so the extracted
    /// lexeme is always well-formed text.
    fn substring(&self, from: usize, to: usize) -> (r: String)
        requires
            self.wf(),
            from <= to <= self.source@.len(),
        ensures
            r@ == self.source@.subrange(from as int, to as int),
    {
        String::from_str(self.source.as_str().substring_char(from, to))
    }

    /// Appends one token for the current lexeme (`start` to the cursor),
    /// stamped with the current line, carrying the given literal payload.
    fn add_token_object(&mut self, token_type: TokenType, literal: Option<Literal>)
        requires
            old(self).wf(),
        ensures
            final(self).wf(),
            final(self).source == old(self).source,
            final(self).chars == old(self).chars,
            final(self).start == old(self).start,
            final(self).current == old(self).current,
            final(self).line == old(self).line,
            final(self).tokens@.len() == old(self).tokens@.len() + 1,
            final(self).tokens@.subrange(0, old(self).tokens@.len() as int) == old(self).tokens@,
            final(self).tokens@.last()@ == (TokenView {
                token_type,
                lexeme: old(self).source@.subrange(
                    old(self).start as int,
                    old(self).current as int,
                ),
                line_number: old(self).line as int,
                literal: literal_view(literal),
            }),
    {
        let text = self.substring(self.start, self.current);
        let t = Token::new(token_type, text, literal, self.line);
        self.tokens.push(t);
        proof {
            assert(self.tokens@.subrange(0, old(self).tokens@.len() as int) =~= old(self).tokens@);
        }
    }

    /// Appends one token for the current lexeme with no literal payload.
    fn add_token_without_literal(&mut self, token_type: TokenType)
        requires
            old(self).wf(),
        ensures
            final(self).wf(),
            final(self).source == old(self).source,
            final(self).chars == old(self).chars,
            final(self).start == old(self).start,
            final(self).current == old(self).current,
            final(self).line == old(self).line,
            final(self).tokens@.len() == old(self).tokens@.len() + 1,
            final(self).tokens@.subrange(0, old(self).tokens@.len() as int) == old(self).tokens@,
            final(self).tokens@.last()@ == plain_token(
                token_type,
                old(self).source@.subrange(old(self).start as int, old(self).current as int),
                old(self).line as int,
            ),
    {
        self.add_token_object(token_type, None);
    }

    /// Consumes the maximal run of identifier characters after the opening
    /// letter, then appends either the matching keyword token or an
    /// identifier token.
    #[verifier::loop_isolation(false)]
    fn add_identifier_token(&mut self)
        requires
            old(self).wf(),
            old(self).current == old(self).start + 1,
            old(self).start < old(self).source@.len(),
            is_alpha_char(old(self).source@[old(self).start as int]),
        ensures
            final(self).wf(),
            final(self).source == old(self).source,
            final(self).chars == old(self).chars,
            final(self).start == old(self).start,
            final(self).line == old(self).line,
            final(self).current == alnum_run_end(old(self).source@, old(self).start as int),
            final(self).tokens@.len() == old(self).tokens@.len() + 1,
            final(self).tokens@.subrange(0, old(self).tokens@.len() as int) == old(self).tokens@,
            final(self).tokens@.last()@ == plain_token(
                crate::keywords::identifier_kind(
                    old(self).source@.subrange(
                        old(self).start as int,
                        alnum_run_end(old(self).source@, old(self).start as int),
                    ),
                ),
                old(self).source@.subrange(
                    old(self).start as int,
                    alnum_run_end(old(self).source@, old(self).start as int),
                ),
                old(self).line as int,
            ),
    {
        let ghost s = self.source@;
        let ghost i = self.start as int;
        while self.is_alphanumeric(self.peek())
            invariant
                self.wf(),
                self.source == old(self).source,
                self.chars == old(self).chars,
                self.tokens == old(self).tokens,
                self.start == old(self).start,
                self.line == old(self).line,
                i < self.current <= s.len(),
                alnum_run_end(s, self.current as int) == alnum_run_end(s, i),
            decreases s.len() - self.current,
        {
            self.advance();
        }
        let token_type = keyword_or_identifier(&self.chars, self.start, self.current);
        self.add_token_without_literal(token_type);
    }

    /// Consumes the rest of a string literal after the opening quote:
    /// everything up to the next quote verbatim, newlines included (each
    /// moves the line counter on). Reaching the end of the source first is
    /// the unterminated-string error; otherwise the closing quote is
    /// consumed and the payload is the text strictly between the quotes.
    #[verifier::loop_isolation(false)]
    fn add_string_token(&mut self) -> (r: Result<(), RloxErrorDetail>)
        requires
            old(self).wf(),
            old(self).current == old(self).start + 1,
            old(self).start < old(self).source@.len(),
            old(self).source@[old(self).start as int] == '"',
        ensures
            final(self).wf(),
            final(self).source == old(self).source,
            final(self).chars == old(self).chars,
            final(self).start == old(self).start,
            match r {
                Ok(()) => ({
                    let s = old(self).source@;
                    let i = old(self).start as int;
                    let close = string_close(s, i + 1);
                    &&& close < s.len()
                    &&& final(self).current == close + 1
                    &&& final(self).line == old(self).line + newlines_between(s, i + 1, close)
                    &&& old(self).line <= final(self).line
                    &&& final(self).tokens@.len() == old(self).tokens@.len() + 1
                    &&& final(self).tokens@.subrange(0, old(self).tokens@.len() as int) == old(
                        self,
                    ).tokens@
                    &&& final(self).tokens@.last()@ == (TokenView {
                        token_type: TokenType::String,
                        lexeme: s.subrange(i, close + 1),
                        line_number: old(self).line as int,
                        literal: Some(LiteralView::Str(s.subrange(i + 1, close))),
                    })
                }),
                Err(e) => ({
                    let s = old(self).source@;
                    let i = old(self).start as int;
                    &&& string_close(s, i + 1) >= s.len()
                    &&& e@ == (ErrorView {
                        line_number: old(self).line + newlines_between(s, i + 1, s.len() as int),
                        message: "Unterminated String"@,
                    })
                    &&& final(self).tokens == old(self).tokens
                    &&& final(self).current == s.len()
                    &&& final(self).line == old(self).line + newlines_between(
                        s,
                        i + 1,
                        s.len() as int,
                    )
                    &&& old(self).line <= final(self).line
                }),
            },
    {
        let ghost s = self.source@;
        let ghost i = self.start as int;
        let ghost l0 = self.line as int;
        let line_start = self.line;
        while !self.is_at_end() && self.peek() != '"'
            invariant
                self.wf(),
                self.source == old(self).source,
                self.chars == old(self).chars,
                self.tokens == old(self).tokens,
                self.start == old(self).start,
                i + 1 <= self.current <= s.len(),
                string_close(s, self.current as int) == string_close(s, i + 1),
                self.line == l0 + newlines_between(s, i + 1, self.current as int),
                old(self).line <= self.line,
            decreases s.len() - self.current,
        {
            let curr = self.peek();
            self.advance();
            if curr == '\n' {
                self.line = self.line + 1;
            }
            proof {
                lemma_newlines_extend(s, i + 1, self.current as int - 1);
            }
        }
        if self.is_at_end() {
            return Err(
                RloxErrorDetail::new(self.line, String::from_str("Unterminated String")),
            );
        }
        proof {
            assert(string_close(s, self.current as int) == self.current as int);
        }
        // consume the closing quote
        self.advance();
        let value = self.substring(self.start + 1, self.current - 1);
        let lexeme = self.substring(self.start, self.current);
        let t = Token::new(TokenType::String, lexeme, Some(Literal::Str(value)), line_start);
        self.tokens.push(t);
        proof {
            assert(self.tokens@.subrange(0, old(self).tokens@.len() as int) =~= old(self).tokens@);
        }
        Ok(())
    }

    /// Consumes the rest of a number literal after the opening digit: the
    /// maximal digit run, extended past a decimal point only when at least
    /// one digit follows it, and appends the number token. The literal
    /// payload is the exact matched text.
    #[verifier::loop_isolation(false)]
    fn add_number_token(&mut self)
        requires
            old(self).wf(),
            old(self).current == old(self).start + 1,
            old(self).start < old(self).source@.len(),
            is_digit_char(old(self).source@[old(self).start as int]),
        ensures
            final(self).wf(),
            final(self).source == old(self).source,
            final(self).chars == old(self).chars,
            final(self).start == old(self).start,
            final(self).line == old(self).line,
            final(self).current == number_end(old(self).source@, old(self).start as int),
            final(self).tokens@.len() == old(self).tokens@.len() + 1,
            final(self).tokens@.subrange(0, old(self).tokens@.len() as int) == old(self).tokens@,
            final(self).tokens@.last()@ == (TokenView {
                token_type: TokenType::Number,
                lexeme: old(self).source@.subrange(
                    old(self).start as int,
                    number_end(old(self).source@, old(self).start as int),
                ),
                line_number: old(self).line as int,
                literal: Some(
                    LiteralView::Num(
                        old(self).source@.subrange(
                            old(self).start as int,
                            number_end(old(self).source@, old(self).start as int),
                        ),
                    ),
                ),
            }),
    {
        let ghost s = self.source@;
        let ghost i = self.start as int;
        while self.is_digit(self.peek())
            invariant
                self.wf(),
                self.source == old(self).source,
                self.chars == old(self).chars,
                self.tokens == old(self).tokens,
                self.start == old(self).start,
                self.line == old(self).line,
                i < self.current <= s.len(),
                digit_run_end(s, self.current as int) == digit_run_end(s, i),
            decreases s.len() - self.current,
        {
            self.advance();
        }
        let ghost d = digit_run_end(s, i);
        if self.peek() == '.' && self.is_digit(self.peek_next()) {
            // consume the decimal point
            self.advance();
            while self.is_digit(self.peek())
                invariant
                    self.wf(),
                    self.source == old(self).source,
                    self.chars == old(self).chars,
                    self.tokens == old(self).tokens,
                    self.start == old(self).start,
                    self.line == old(self).line,
                    d + 1 <= self.current <= s.len(),
                    digit_run_end(s, self.current as int) == digit_run_end(s, d + 1),
                decreases s.len() - self.current,
            {
                self.advance();
            }
        }
        let value = self.substring(self.start, self.current);
        self.add_token_object(TokenType::Number, Some(Literal::Num(value)));
    }

    /// Classifies and consumes exactly one lexeme, starting at the cursor
    /// (which must equal the recorded lexeme start), appending one token,
    /// or none for whitespace and comments; on invalid input it reports
    /// the positioned error the model assigns to this position. Whatever
    /// the outcome, the cursor stops exactly at the end of that single
    /// lexeme and the line counter moves by exactly the newlines inside
    /// it, so each call makes strict, bounded progress.
    #[verifier::loop_isolation(false)]
    fn scan_token(&mut self) -> (r: Result<(), RloxErrorDetail>)
        requires
            old(self).wf(),
            old(self).current < old(self).source@.len(),
            old(self).start == old(self).current,
        ensures
            final(self).wf(),
            final(self).source == old(self).source,
            final(self).chars == old(self).chars,
            final(self).start == old(self).start,
            final(self).current == lexeme_end(old(self).source@, old(self).current as int),
            old(self).current < final(self).current <= old(self).source@.len(),
            final(self).line == old(self).line + newlines_between(
                old(self).source@,
                old(self).current as int,
                final(self).current as int,
            ),
            old(self).line <= final(self).line,
            r is Err <==> lexeme_error(old(self).source@, old(self).current as int),
            match r {
                Ok(()) => ({
                    &&& step_ok(*old(self), *final(self))
                    &&& final(self).tokens@.len() == old(self).tokens@.len() + (
                    if is_skip_lexeme(old(self).source@, old(self).current as int) {
                        0int
                    } else {
                        1int
                    })
                }),
                Err(e) => ({
                    &&& scan_from(
                        old(self).source@,
                        old(self).current as int,
                        old(self).line as int,
                    ) == Err::<Seq<TokenView>, ErrorView>(e@)
                    &&& final(self).tokens == old(self).tokens
                }),
            },
    {
        let ghost s = self.source@;
        let ghost i = self.current as int;
        let c = self.advance();
        proof {
            lemma_newlines_one(s, i);
        }
        match c {
            '(' => {
                self.add_token_without_literal(TokenType::LeftParen);
                proof {
                    lemma_step_single(*old(self), *self);
                }
                Ok(())
            },
            ')' => {
                self.add_token_without_literal(TokenType::RightParen);
                proof {
                    lemma_step_single(*old(self), *self);
                }
                Ok(())
            },
            '{' => {
                self.add_token_without_literal(TokenType::LeftBrace);
                proof {
                    lemma_step_single(*old(self), *self);
                }
                Ok(())
            },
            '}' => {
                self.add_token_without_literal(TokenType::RightBrace);
                proof {
                    lemma_step_single(*old(self), *self);
                }
                Ok(())
            },
            ',' => {
                self.add_token_without_literal(TokenType::Comma);
                proof {
                    lemma_step_single(*old(self), *self);
                }
                Ok(())
            },
            '.' => {
                self.add_token_without_literal(TokenType::Dot);
                proof {
                    lemma_step_single(*old(self), *self);
                }
                Ok(())
            },
            '-' => {
                self.add_token_without_literal(TokenType::Minus);
                proof {
                    lemma_step_single(*old(self), *self);
                }
                Ok(())
            },
            '+' => {
                self.add_token_without_literal(TokenType::Plus);
                proof {
                    lemma_step_single(*old(self), *self);
                }
                Ok(())
            },
            ';' => {
                self.add_token_without_literal(TokenType::Semicolon);
                proof {
                    lemma_step_single(*old(self), *self);
                }
                Ok(())
            },
            '*' => {
                self.add_token_without_literal(TokenType::Star);
                proof {
                    lemma_step_single(*old(self), *self);
                }
                Ok(())
            },
            '!' => {
                let match_next = self.is_next_char_match('=');
                if match_next {
                    self.add_token_without_literal(TokenType::BangEqual);
                } else {
                    self.add_token_without_literal(TokenType::Bang);
                }
                proof {
                    if match_next {
                        lemma_newlines_one(s, i + 1);
                        lemma_newlines_split(s, i, i + 1, i + 2);
                    }
                    lemma_step_single(*old(self), *self);
                }
                Ok(())
            },
            '=' => {
                let match_next = self.is_next_char_match('=');
                if match_next {
                    self.add_token_without_literal(TokenType::EqualEqual);
                } else {
                    self.add_token_without_literal(TokenType::Equal);
                }
                proof {
                    if match_next {
                        lemma_newlines_one(s, i + 1);
                        lemma_newlines_split(s, i, i + 1, i + 2);
                    }
                    lemma_step_single(*old(self), *self);
                }
                Ok(())
            },
            '<' => {
                let match_next = self.is_next_char_match('=');
                if match_next {
                    self.add_token_without_literal(TokenType::LessEqual);
                } else {
                    self.add_token_without_literal(TokenType::Less);
                }
                proof {
                    if match_next {
                        lemma_newlines_one(s, i + 1);
                        lemma_newlines_split(s, i, i + 1, i + 2);
                    }
                    lemma_step_single(*old(self), *self);
                }
                Ok(())
            },
            '>' => {
                let match_next = self.is_next_char_match('=');
                if match_next {
                    self.add_token_without_literal(TokenType::GreaterEqual);
                } else {
                    self.add_token_without_literal(TokenType::Greater);
                }
                proof {
                    if match_next {
                        lemma_newlines_one(s, i + 1);
                        lemma_newlines_split(s, i, i + 1, i + 2);
                    }
                    lemma_step_single(*old(self), *self);
                }
                Ok(())
            },
            '/' => {
                let match_comment = self.is_next_char_match('/');
                if match_comment {
                    // a comment runs to the end of the line and is discarded
                    while !self.is_at_end() && self.peek() != '\n'
                        invariant
                            self.wf(),
                            self.source == old(self).source,
                            self.chars == old(self).chars,
                            self.tokens == old(self).tokens,
                            self.start == old(self).start,
                            self.line == old(self).line,
                            i + 2 <= self.current <= s.len(),
                            line_comment_end(s, self.current as int) == line_comment_end(s, i + 2),
                        decreases s.len() - self.current,
                    {
                        self.advance();
                    }
                    proof {
                        assert(self.current as int == line_comment_end(s, i + 2));
                        lemma_newlines_one(s, i + 1);
                        lemma_comment_newlines(s, i + 2);
                        lemma_newlines_split(s, i, i + 1, self.current as int);
                        lemma_newlines_split(s, i + 1, i + 2, self.current as int);
                        lemma_step_skip(*old(self), *self);
                    }
                } else {
                    self.add_token_without_literal(TokenType::Slash);
                    proof {
                        lemma_step_single(*old(self), *self);
                    }
                }
                Ok(())
            },
            '\n' => {
                self.line = self.line + 1;
                proof {
                    lemma_step_skip(*old(self), *self);
                }
                Ok(())
            },
            ' ' => {
                proof {
                    lemma_step_skip(*old(self), *self);
                }
                Ok(())
            },
            '\r' => {
                proof {
                    lemma_step_skip(*old(self), *self);
                }
                Ok(())
            },
            '\t' => {
                proof {
                    lemma_step_skip(*old(self), *self);
                }
                Ok(())
            },
            '"' => {
                match self.add_string_token() {
                    Ok(()) => {
                        proof {
                            crate::model::lemma_string_close(s, i + 1);
                            let close = string_close(s, i + 1);
                            lemma_newlines_one(s, close);
                            lemma_newlines_split(s, i, i + 1, close + 1);
                            lemma_newlines_split(s, i + 1, close, close + 1);
                            lemma_step_single(*old(self), *self);
                        }
                        Ok(())
                    },
                    Err(e) => {
                        proof {
                            crate::model::lemma_string_close(s, i + 1);
                            lemma_newlines_split(s, i, i + 1, s.len() as int);
                        }
                        Err(e)
                    },
                }
            },
            other => {
                if self.is_digit(other) {
                    self.add_number_token();
                    proof {
                        crate::model::lemma_number_end(s, i);
                        lemma_number_newlines(s, i);
                        lemma_step_single(*old(self), *self);
                    }
                    return Ok(());
                }
                if self.is_alpha(other) {
                    self.add_identifier_token();
                    proof {
                        assert(alnum_run_end(s, i) == alnum_run_end(s, i + 1));
                        crate::model::lemma_alnum_run_end(s, i + 1);
                        lemma_identifier_newlines(s, i);
                        lemma_step_single(*old(self), *self);
                    }
                    return Ok(());
                }
                Err(RloxErrorDetail::new(self.line, String::from_str("Unexpected Token")))
            },
        }
    }

    /// Produces the complete token sequence of the source, terminated by
    /// the end-of-input token, or the first positioned error, at which the
    /// scan aborts with the token list emptied: no partial token sequence
    /// is exposed on failure. The result is exactly what the mathematical
    /// model `scan_spec` assigns to the source text: for a freshly
    /// constructed scanner the last two conditions say so directly, and
    /// the earlier ones state the same for a scan resumed from any
    /// well-formed state.
    #[verifier::loop_isolation(false)]
    pub fn scan_tokens(&mut self) -> (r: Result<&Vec<Token>, RloxErrorDetail>)
        requires
            old(self).wf(),
        ensures
            final(self).wf(),
            final(self).source == old(self).source,
            match r {
                Ok(v) => ({
                    &&& v@ == final(self).tokens@
                    &&& final(self).tokens@.subrange(0, old(self).tokens@.len() as int) == old(
                        self,
                    ).tokens@
                    &&& scan_from(
                        old(self).source@,
                        old(self).current as int,
                        old(self).line as int,
                    ) == Ok::<Seq<TokenView>, ErrorView>(tokens_delta(*old(self), *final(self)))
                }),
                Err(e) => ({
                    &&& final(self).tokens@.len() == 0
                    &&& scan_from(
                        old(self).source@,
                        old(self).current as int,
                        old(self).line as int,
                    ) == Err::<Seq<TokenView>, ErrorView>(e@)
                }),
            },
            (old(self).current == 0 && old(self).line == 1 && old(self).tokens@.len() == 0)
                ==> match r {
                Ok(v) => scan_spec(old(self).source@) == Ok::<Seq<TokenView>, ErrorView>(
                    v@.map_values(|t: Token| t@),
                ),
                Err(e) => scan_spec(old(self).source@) == Err::<Seq<TokenView>, ErrorView>(e@),
            },
    {
        let ghost orig = *self;
        proof {
            lemma_prepend_empty(
                scan_from(self.source@, self.current as int, self.line as int),
            );
            assert(tokens_delta(orig, *self) =~= Seq::<TokenView>::empty());
        }
        while !self.is_at_end()
            invariant
                self.wf(),
                self.source == orig.source,
                self.chars == orig.chars,
                orig.tokens@.len() <= self.tokens@.len(),
                self.tokens@.subrange(0, orig.tokens@.len() as int) == orig.tokens@,
                scan_from(orig.source@, orig.current as int, orig.line as int) == prepend_tokens(
                    tokens_delta(orig, *self),
                    scan_from(self.source@, self.current as int, self.line as int),
                ),
            decreases self.source@.len() - self.current,
        {
            self.start = self.current;
            let ghost mid = *self;
            match self.scan_token() {
                Ok(()) => {
                    proof {
                        lemma_scan_compose(orig, mid, *self);
                    }
                },
                Err(err) => {
                    // fail fast: the first error aborts the scan, and no
                    // partial token sequence is exposed on failure
                    self.tokens.clear();
                    return Err(err);
                },
            }
        }
        // the cursor consumed the whole source: the model yields the
        // end-of-input token alone from here
        let ghost before_eof = *self;
        let t = Token::eof(self.line);
        self.tokens.push(t);
        proof {
            assert(self.tokens@.subrange(0, orig.tokens@.len() as int) =~= orig.tokens@);
            assert(scan_from(self.source@, before_eof.current as int, before_eof.line as int)
                == Ok::<Seq<TokenView>, ErrorView>(seq![eof_token(before_eof.line as int)]));
            assert(tokens_delta(orig, *self) =~= tokens_delta(orig, before_eof) + seq![
                self.tokens@.last()@,
            ]);
            assert(tokens_delta(orig, before_eof) + seq![self.tokens@.last()@] =~= tokens_delta(
                orig,
                before_eof,
            ) + seq![eof_token(before_eof.line as int)]);
            if orig.current == 0 && orig.line == 1 && orig.tokens@.len() == 0 {
                assert(tokens_delta(orig, *self) =~= self.tokens@.map_values(|t: Token| t@));
            }
        }
        Ok(&self.tokens)
    }
}

} // verus!
