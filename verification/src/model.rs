//! The mathematical model of the scan: which token sequence (or which
//! positioned error) a given source text denotes. The executable scanner
//! is verified to compute exactly this model.

use vstd::prelude::*;

use crate::error::ErrorView;
use crate::keywords::identifier_kind;
use crate::token::{LiteralView, TokenType, TokenView};

verus! {

/// A decimal digit.
pub open spec fn is_digit_char(c: char) -> bool {
    '0' <= c && c <= '9'
}

/// An ASCII letter or an underscore: what may begin an identifier.
pub open spec fn is_alpha_char(c: char) -> bool {
    ('A' <= c && c <= 'Z') || ('a' <= c && c <= 'z') || c == '_'
}

/// What may continue an identifier.
pub open spec fn is_alnum_char(c: char) -> bool {
    is_alpha_char(c) || is_digit_char(c)
}

/// The kind of a single-character punctuation token, `None` for any other
/// character. The slash is not here: it may open a line comment instead and
/// is dispatched on its own.
pub open spec fn single_punct_kind(c: char) -> Option<TokenType> {
    if c == '(' {
        Some(TokenType::LeftParen)
    } else if c == ')' {
        Some(TokenType::RightParen)
    } else if c == '{' {
        Some(TokenType::LeftBrace)
    } else if c == '}' {
        Some(TokenType::RightBrace)
    } else if c == ',' {
        Some(TokenType::Comma)
    } else if c == '.' {
        Some(TokenType::Dot)
    } else if c == '-' {
        Some(TokenType::Minus)
    } else if c == '+' {
        Some(TokenType::Plus)
    } else if c == ';' {
        Some(TokenType::Semicolon)
    } else if c == '*' {
        Some(TokenType::Star)
    } else {
        None
    }
}

/// For `!`, `=`, `<`, `>` standing alone: the one-character operator kind.
pub open spec fn one_char_operator_kind(c: char) -> TokenType {
    if c == '!' {
        TokenType::Bang
    } else if c == '=' {
        TokenType::Equal
    } else if c == '<' {
        TokenType::Less
    } else {
        TokenType::Greater
    }
}

/// For `!`, `=`, `<`, `>` followed by `=`: the two-character operator kind.
pub open spec fn two_char_operator_kind(c: char) -> TokenType {
    if c == '!' {
        TokenType::BangEqual
    } else if c == '=' {
        TokenType::EqualEqual
    } else if c == '<' {
        TokenType::LessEqual
    } else {
        TokenType::GreaterEqual
    }
}

/// What `peek` sees at position `i`: the character there, or the null
/// character at or past the end of the source.
pub open spec fn peek_at(s: Seq<char>, i: int) -> char {
    if 0 <= i < s.len() {
        s[i]
    } else {
        '\0'
    }
}

/// The end of the maximal run of decimal digits starting at `i`.
pub open spec fn digit_run_end(s: Seq<char>, i: int) -> int
    decreases s.len() - i,
{
    if 0 <= i < s.len() && is_digit_char(s[i]) {
        digit_run_end(s, i + 1)
    } else {
        i
    }
}

/// The end of the maximal run of identifier characters starting at `i`.
pub open spec fn alnum_run_end(s: Seq<char>, i: int) -> int
    decreases s.len() - i,
{
    if 0 <= i < s.len() && is_alnum_char(s[i]) {
        alnum_run_end(s, i + 1)
    } else {
        i
    }
}

/// The position of the first `"` at or after `i`, or the length of the
/// source if there is none.
pub open spec fn string_close(s: Seq<char>, i: int) -> int
    decreases s.len() - i,
{
    if 0 <= i < s.len() {
        if s[i] == '"' {
            i
        } else {
            string_close(s, i + 1)
        }
    } else {
        s.len() as int
    }
}

/// The position of the first newline at or after `i`, or the length of the
/// source if there is none: where a line comment stops.
pub open spec fn line_comment_end(s: Seq<char>, i: int) -> int
    decreases s.len() - i,
{
    if 0 <= i < s.len() {
        if s[i] == '\n' {
            i
        } else {
            line_comment_end(s, i + 1)
        }
    } else {
        s.len() as int
    }
}

/// How many newline characters lie in `s[a..b)`.
pub open spec fn newlines_between(s: Seq<char>, a: int, b: int) -> int
    decreases b - a,
{
    if a < b {
        (if 0 <= a < s.len() && s[a] == '\n' {
            1int
        } else {
            0int
        }) + newlines_between(s, a + 1, b)
    } else {
        0
    }
}

/// Where a number lexeme beginning at `i` ends: the maximal digit run,
/// extended past a decimal point only when at least one digit follows it.
pub open spec fn number_end(s: Seq<char>, i: int) -> int {
    let d = digit_run_end(s, i);
    if d < s.len() && s[d] == '.' && d + 1 < s.len() && is_digit_char(s[d + 1]) {
        digit_run_end(s, d + 1)
    } else {
        d
    }
}

/// Where the single lexeme whose first character stands at `i` ends: one
/// position past its last character. Operators may take their trailing
/// `=`; a line comment runs to its newline, exclusive; a string runs past
/// its closing quote, or to the end of the source when it has none; a
/// number or identifier takes its maximal run; everything else — single
/// punctuation, whitespace, a newline, or an unexpected character — is one
/// character long.
pub open spec fn lexeme_end(s: Seq<char>, i: int) -> int {
    let c = s[i];
    if c == '!' || c == '=' || c == '<' || c == '>' {
        if i + 1 < s.len() && s[i + 1] == '=' {
            i + 2
        } else {
            i + 1
        }
    } else if c == '/' {
        if i + 1 < s.len() && s[i + 1] == '/' {
            line_comment_end(s, i + 2)
        } else {
            i + 1
        }
    } else if c == '"' {
        let close = string_close(s, i + 1);
        if close < s.len() {
            close + 1
        } else {
            s.len() as int
        }
    } else if is_digit_char(c) {
        number_end(s, i)
    } else if is_alpha_char(c) {
        alnum_run_end(s, i)
    } else {
        i + 1
    }
}

/// Whether the lexeme starting at `i` produces no token: whitespace, a
/// newline, or a line comment.
pub open spec fn is_skip_lexeme(s: Seq<char>, i: int) -> bool {
    is_blank_char(s[i]) || (s[i] == '/' && i + 1 < s.len() && s[i + 1] == '/')
}

/// Whether the single lexeme starting at `i` fails to scan: its first
/// character matches no dispatch rule, or it opens a string literal whose
/// closing quote never comes.
pub open spec fn lexeme_error(s: Seq<char>, i: int) -> bool {
    let c = s[i];
    if c == '"' {
        string_close(s, i + 1) >= s.len()
    } else {
        &&& single_punct_kind(c) is None
        &&& c != '!' && c != '=' && c != '<' && c != '>' && c != '/'
        &&& !is_blank_char(c)
        &&& !is_digit_char(c)
        &&& !is_alpha_char(c)
    }
}

/// A token that carries no literal payload.
pub open spec fn plain_token(token_type: TokenType, lexeme: Seq<char>, line: int) -> TokenView {
    TokenView { token_type, lexeme, line_number: line, literal: None }
}

/// The synthetic end-of-input token, stamped with the given line.
pub open spec fn eof_token(line: int) -> TokenView {
    plain_token(TokenType::Eof, Seq::empty(), line)
}

/// Puts the given tokens in front of the rest of a scan's outcome; an error
/// swallows everything before it, since a failed scan exposes no tokens.
pub open spec fn prepend_tokens(ts: Seq<TokenView>, r: Result<Seq<TokenView>, ErrorView>) -> Result<
    Seq<TokenView>,
    ErrorView,
> {
    match r {
        Ok(rest) => Ok(ts + rest),
        Err(e) => Err(e),
    }
}

/// The scan of `s` from position `i` on line `line`: one lexeme is
/// classified by its first character and consumed, and the rest of the
/// source is scanned from the position after it. Whitespace and comments
/// produce no token; a newline moves to the next line; reaching the end
/// yields the end-of-input token alone.
pub open spec fn scan_from(s: Seq<char>, i: int, line: int) -> Result<Seq<TokenView>, ErrorView>
    decreases s.len() - i,
    via scan_from_decreases
{
    if !(0 <= i < s.len()) {
        Ok(seq![eof_token(line)])
    } else {
        let c = s[i];
        if single_punct_kind(c) is Some {
            prepend_tokens(
                seq![plain_token(single_punct_kind(c)->0, s.subrange(i, i + 1), line)],
                scan_from(s, i + 1, line),
            )
        } else if c == '!' || c == '=' || c == '<' || c == '>' {
            if i + 1 < s.len() && s[i + 1] == '=' {
                prepend_tokens(
                    seq![plain_token(two_char_operator_kind(c), s.subrange(i, i + 2), line)],
                    scan_from(s, i + 2, line),
                )
            } else {
                prepend_tokens(
                    seq![plain_token(one_char_operator_kind(c), s.subrange(i, i + 1), line)],
                    scan_from(s, i + 1, line),
                )
            }
        } else if c == '/' {
            if i + 1 < s.len() && s[i + 1] == '/' {
                scan_from(s, line_comment_end(s, i + 2), line)
            } else {
                prepend_tokens(
                    seq![plain_token(TokenType::Slash, s.subrange(i, i + 1), line)],
                    scan_from(s, i + 1, line),
                )
            }
        } else if c == '\n' {
            scan_from(s, i + 1, line + 1)
        } else if c == ' ' || c == '\r' || c == '\t' {
            scan_from(s, i + 1, line)
        } else if c == '"' {
            let close = string_close(s, i + 1);
            if close >= s.len() {
                Err(
                    ErrorView {
                        line_number: line + newlines_between(s, i + 1, s.len() as int),
                        message: "Unterminated String"@,
                    },
                )
            } else {
                prepend_tokens(
                    seq![
                        (TokenView {
                            token_type: TokenType::String,
                            lexeme: s.subrange(i, close + 1),
                            line_number: line,
                            literal: Some(LiteralView::Str(s.subrange(i + 1, close))),
                        }),
                    ],
                    scan_from(s, close + 1, line + newlines_between(s, i + 1, close)),
                )
            }
        } else if is_digit_char(c) {
            let e = number_end(s, i);
            prepend_tokens(
                seq![
                    (TokenView {
                        token_type: TokenType::Number,
                        lexeme: s.subrange(i, e),
                        line_number: line,
                        literal: Some(LiteralView::Num(s.subrange(i, e))),
                    }),
                ],
                scan_from(s, e, line),
            )
        } else if is_alpha_char(c) {
            let e = alnum_run_end(s, i);
            prepend_tokens(
                seq![plain_token(identifier_kind(s.subrange(i, e)), s.subrange(i, e), line)],
                scan_from(s, e, line),
            )
        } else {
            Err(ErrorView { line_number: line, message: "Unexpected Token"@ })
        }
    }
}

#[via_fn]
proof fn scan_from_decreases(s: Seq<char>, i: int, line: int) {
    if 0 <= i < s.len() {
        let c = s[i];
        if c == '/' && i + 1 < s.len() && s[i + 1] == '/' {
            lemma_line_comment_end(s, i + 2);
        }
        if c == '"' {
            lemma_string_close(s, i + 1);
        }
        if is_digit_char(c) {
            lemma_number_end(s, i);
        }
        if is_alpha_char(c) {
            lemma_alnum_run_end(s, i);
        }
    }
}

/// The complete scan of a source text: the full ordered token sequence
/// terminated by the end-of-input token, or the first positioned error,
/// starting on line 1.
pub open spec fn scan_spec(s: Seq<char>) -> Result<Seq<TokenView>, ErrorView> {
    scan_from(s, 0, 1)
}

/// Bounds and content of a maximal digit run.
pub proof fn lemma_digit_run_end(s: Seq<char>, i: int)
    requires
        0 <= i <= s.len(),
    ensures
        i <= digit_run_end(s, i) <= s.len(),
        forall|j: int| i <= j < digit_run_end(s, i) ==> is_digit_char(#[trigger] s[j]),
        digit_run_end(s, i) < s.len() ==> !is_digit_char(s[digit_run_end(s, i)]),
    decreases s.len() - i,
{
    if i < s.len() && is_digit_char(s[i]) {
        lemma_digit_run_end(s, i + 1);
    }
}

/// Bounds and content of a maximal identifier-character run.
pub proof fn lemma_alnum_run_end(s: Seq<char>, i: int)
    requires
        0 <= i <= s.len(),
    ensures
        i <= alnum_run_end(s, i) <= s.len(),
        forall|j: int| i <= j < alnum_run_end(s, i) ==> is_alnum_char(#[trigger] s[j]),
        alnum_run_end(s, i) < s.len() ==> !is_alnum_char(s[alnum_run_end(s, i)]),
    decreases s.len() - i,
{
    if i < s.len() && is_alnum_char(s[i]) {
        lemma_alnum_run_end(s, i + 1);
    }
}

/// Bounds and content of the search for a closing quote.
pub proof fn lemma_string_close(s: Seq<char>, i: int)
    requires
        0 <= i <= s.len(),
    ensures
        i <= string_close(s, i) <= s.len(),
        forall|j: int| i <= j < string_close(s, i) ==> #[trigger] s[j] != '"',
        string_close(s, i) < s.len() ==> s[string_close(s, i)] == '"',
    decreases s.len() - i,
{
    if i < s.len() && s[i] != '"' {
        lemma_string_close(s, i + 1);
    }
}

/// Bounds and content of the search for the end of a line comment.
pub proof fn lemma_line_comment_end(s: Seq<char>, i: int)
    requires
        0 <= i <= s.len(),
    ensures
        i <= line_comment_end(s, i) <= s.len(),
        forall|j: int| i <= j < line_comment_end(s, i) ==> #[trigger] s[j] != '\n',
        line_comment_end(s, i) < s.len() ==> s[line_comment_end(s, i)] == '\n',
    decreases s.len() - i,
{
    if i < s.len() && s[i] != '\n' {
        lemma_line_comment_end(s, i + 1);
    }
}

/// A number lexeme is never empty and stays within the source.
pub proof fn lemma_number_end(s: Seq<char>, i: int)
    requires
        0 <= i < s.len(),
        is_digit_char(s[i]),
    ensures
        i < number_end(s, i) <= s.len(),
{
    lemma_digit_run_end(s, i);
    let d = digit_run_end(s, i);
    if d < s.len() && s[d] == '.' && d + 1 < s.len() && is_digit_char(s[d + 1]) {
        lemma_digit_run_end(s, d + 1);
        assert(digit_run_end(s, d + 1) == digit_run_end(s, d + 2));
    }
}

/// Extending a range one character to the right adds that character's
/// newline count.
pub proof fn lemma_newlines_extend(s: Seq<char>, a: int, b: int)
    requires
        a <= b,
    ensures
        newlines_between(s, a, b + 1) == newlines_between(s, a, b) + (
        if 0 <= b < s.len() && s[b] == '\n' {
            1int
        } else {
            0int
        }),
    decreases b - a,
{
    if a < b {
        lemma_newlines_extend(s, a + 1, b);
    } else {
        assert(newlines_between(s, b + 1, b + 1) == 0);
    }
}

/// Newline counts add over a split of the range.
pub proof fn lemma_newlines_split(s: Seq<char>, a: int, m: int, b: int)
    requires
        a <= m <= b,
    ensures
        newlines_between(s, a, b) == newlines_between(s, a, m) + newlines_between(s, m, b),
    decreases m - a,
{
    if a < m {
        lemma_newlines_split(s, a + 1, m, b);
    }
}

/// A range without newline characters counts none.
pub proof fn lemma_newlines_none(s: Seq<char>, a: int, b: int)
    requires
        forall|k: int| a <= k < b ==> #[trigger] s[k] != '\n',
    ensures
        newlines_between(s, a, b) == 0,
    decreases b - a,
{
    if a < b {
        lemma_newlines_none(s, a + 1, b);
    }
}

/// A number lexeme holds only digits and at most one decimal point, so it
/// passes over no newline.
pub proof fn lemma_number_newlines(s: Seq<char>, i: int)
    requires
        0 <= i < s.len(),
        is_digit_char(s[i]),
    ensures
        newlines_between(s, i, number_end(s, i)) == 0,
{
    let e = number_end(s, i);
    let d = digit_run_end(s, i);
    lemma_digit_run_end(s, i);
    if d < s.len() && s[d] == '.' && d + 1 < s.len() && is_digit_char(s[d + 1]) {
        lemma_digit_run_end(s, d + 1);
    }
    assert forall|k: int| i <= k < e implies #[trigger] s[k] != '\n' by {
        if k < d {
            assert(is_digit_char(s[k]));
        } else if k == d {
            assert(s[k] == '.');
        } else {
            assert(is_digit_char(s[k]));
        }
    }
    lemma_newlines_none(s, i, e);
}

/// An identifier lexeme holds only letters, digits and underscores, so it
/// passes over no newline.
pub proof fn lemma_identifier_newlines(s: Seq<char>, i: int)
    requires
        0 <= i < s.len(),
        is_alpha_char(s[i]),
    ensures
        newlines_between(s, i, alnum_run_end(s, i)) == 0,
{
    lemma_alnum_run_end(s, i);
    assert forall|k: int| i <= k < alnum_run_end(s, i) implies #[trigger] s[k] != '\n' by {
        assert(is_alnum_char(s[k]));
    }
    lemma_newlines_none(s, i, alnum_run_end(s, i));
}

/// A line comment stops before its newline, so it passes over none.
pub proof fn lemma_comment_newlines(s: Seq<char>, i: int)
    requires
        0 <= i <= s.len(),
    ensures
        newlines_between(s, i, line_comment_end(s, i)) == 0,
{
    lemma_line_comment_end(s, i);
    lemma_newlines_none(s, i, line_comment_end(s, i));
}

/// Whether the scan treats `c` as whitespace.
pub open spec fn is_blank_char(c: char) -> bool {
    c == ' ' || c == '\r' || c == '\t' || c == '\n'
}

/// Whether `c` is one of the single-character punctuation characters,
/// the slash included.
pub open spec fn is_punct_char(c: char) -> bool {
    single_punct_kind(c) is Some || c == '/'
}

/// The token kind of a single punctuation character.
pub open spec fn punct_kind(c: char) -> TokenType {
    if c == '/' {
        TokenType::Slash
    } else {
        single_punct_kind(c)->0
    }
}

/// The punctuation characters of `s` at or after `i`, in order.
pub open spec fn puncts_after(s: Seq<char>, i: int) -> Seq<char>
    decreases s.len() - i,
{
    if 0 <= i < s.len() {
        if is_punct_char(s[i]) {
            seq![s[i]] + puncts_after(s, i + 1)
        } else {
            puncts_after(s, i + 1)
        }
    } else {
        Seq::empty()
    }
}

/// A source that holds, from `i` on, only punctuation and whitespace, with
/// every punctuation character followed by whitespace or the end.
pub open spec fn punct_blank_separated(s: Seq<char>, i: int) -> bool {
    forall|k: int|
        i <= k < s.len() ==> ((is_punct_char(#[trigger] s[k]) || is_blank_char(s[k])) && (
        is_punct_char(s[k]) && k + 1 < s.len() ==> is_blank_char(s[k + 1])))
}

/// The inductive heart of the punctuation law: from any position of such a
/// source, the scan succeeds, and apart from the trailing end-of-input
/// token it emits one token per punctuation character, of that character's
/// kind, whose lexeme is exactly that character, with no literal payload.
proof fn lemma_punct_scan_from(s: Seq<char>, i: int, line: int)
    requires
        0 <= i <= s.len(),
        punct_blank_separated(s, i),
    ensures
        scan_from(s, i, line) is Ok,
        scan_from(s, i, line)->Ok_0.len() == puncts_after(s, i).len() + 1,
        forall|k: int|
            0 <= k < puncts_after(s, i).len() ==> ((#[trigger] scan_from(s, i, line)->Ok_0[k])
                .token_type == punct_kind(puncts_after(s, i)[k]) && scan_from(s, i, line)->Ok_0[k]
                .lexeme == seq![puncts_after(s, i)[k]] && scan_from(s, i, line)->Ok_0[k].literal
                is None),
    decreases s.len() - i,
{
    if i == s.len() {
        assert(puncts_after(s, i).len() == 0);
    } else {
        let c = s[i];
        assert(is_punct_char(c) || is_blank_char(c));
        if is_punct_char(c) {
            // every punctuation character is followed by whitespace or the
            // end, so a slash can never open a comment here
            if c == '/' && i + 1 < s.len() {
                assert(is_blank_char(s[i + 1]));
            }
            lemma_punct_scan_from(s, i + 1, line);
            let ps = puncts_after(s, i);
            let rest = scan_from(s, i + 1, line)->Ok_0;
            let tok = plain_token(punct_kind(c), s.subrange(i, i + 1), line);
            assert(scan_from(s, i, line)->Ok_0 == seq![tok] + rest);
            assert(ps == seq![c] + puncts_after(s, i + 1));
            assert(s.subrange(i, i + 1) =~= seq![c]);
            assert forall|k: int| 0 <= k < ps.len() implies ((#[trigger] scan_from(s, i, line)->Ok_0[k])
                .token_type == punct_kind(ps[k]) && scan_from(s, i, line)->Ok_0[k].lexeme == seq![
                ps[k],
            ] && scan_from(s, i, line)->Ok_0[k].literal is None) by {
                if k == 0 {
                    assert(scan_from(s, i, line)->Ok_0[0] == tok);
                    assert(ps[0] == c);
                } else {
                    assert(scan_from(s, i, line)->Ok_0[k] == rest[k - 1]);
                    assert(ps[k] == puncts_after(s, i + 1)[k - 1]);
                }
            }
        } else {
            // whitespace: no token, and the punctuation list is unchanged
            let l2: int = if c == '\n' {
                line + 1
            } else {
                line
            };
            lemma_punct_scan_from(s, i + 1, l2);
            assert(puncts_after(s, i) == puncts_after(s, i + 1));
            assert(scan_from(s, i, line) == scan_from(s, i + 1, l2));
        }
    }
}

/// For a source made of single-character punctuation separated by
/// whitespace, the scan succeeds; leaving the trailing end-of-input token
/// aside, it has exactly one token per non-whitespace character, of the
/// expected kind, whose lexeme is that single character.
pub proof fn lemma_punctuation_only(s: Seq<char>)
    requires
        punct_blank_separated(s, 0),
    ensures
        scan_spec(s) is Ok,
        scan_spec(s)->Ok_0.len() == puncts_after(s, 0).len() + 1,
        forall|k: int|
            0 <= k < puncts_after(s, 0).len() ==> ((#[trigger] scan_spec(s)->Ok_0[k]).token_type
                == punct_kind(puncts_after(s, 0)[k]) && scan_spec(s)->Ok_0[k].lexeme == seq![
                puncts_after(s, 0)[k],
            ] && scan_spec(s)->Ok_0[k].literal is None),
{
    lemma_punct_scan_from(s, 0, 1);
}

/// One character's worth of newline counting.
pub proof fn lemma_newlines_one(s: Seq<char>, i: int)
    ensures
        newlines_between(s, i, i + 1) == (if 0 <= i < s.len() && s[i] == '\n' {
            1int
        } else {
            0int
        }),
{
    assert(newlines_between(s, i + 1, i + 1) == 0);
}

/// What a scan outcome must say about lines, scanning from `i` on `line`:
/// on success, the trailing end-of-input token sits on the line reached
/// after every remaining newline; on failure, the reported line is `line`
/// plus the newlines of the part of the source the scan consumed.
pub open spec fn lines_accounted(s: Seq<char>, i: int, line: int) -> bool {
    match scan_from(s, i, line) {
        Ok(toks) => toks.len() > 0 && toks.last() == eof_token(
            line + newlines_between(s, i, s.len() as int),
        ),
        Err(e) => exists|p: int|
            i <= p <= s.len() && e.line_number == line + #[trigger] newlines_between(s, i, p),
    }
}

/// A step that emits one token and continues at `j` on line `l2`, where
/// `l2` accounts for the newlines passed over, keeps lines accounted.
proof fn lemma_lines_token_step(s: Seq<char>, i: int, line: int, j: int, l2: int, tok: TokenView)
    requires
        0 <= i <= j <= s.len(),
        l2 == line + newlines_between(s, i, j),
        scan_from(s, i, line) == prepend_tokens(seq![tok], scan_from(s, j, l2)),
        lines_accounted(s, j, l2),
    ensures
        lines_accounted(s, i, line),
{
    match scan_from(s, j, l2) {
        Ok(rest) => {
            lemma_newlines_split(s, i, j, s.len() as int);
            assert(scan_from(s, i, line)->Ok_0 == seq![tok] + rest);
            assert((seq![tok] + rest).last() == rest.last());
        },
        Err(e) => {
            let p = choose|p: int|
                j <= p <= s.len() && e.line_number == l2 + #[trigger] newlines_between(s, j, p);
            lemma_newlines_split(s, i, j, p);
            assert(i <= p <= s.len() && e.line_number == line + newlines_between(s, i, p));
        },
    }
}

/// A step that emits no token and continues at `j` on line `l2`, where
/// `l2` accounts for the newlines passed over, keeps lines accounted.
proof fn lemma_lines_skip_step(s: Seq<char>, i: int, line: int, j: int, l2: int)
    requires
        0 <= i <= j <= s.len(),
        l2 == line + newlines_between(s, i, j),
        scan_from(s, i, line) == scan_from(s, j, l2),
        lines_accounted(s, j, l2),
    ensures
        lines_accounted(s, i, line),
{
    match scan_from(s, j, l2) {
        Ok(rest) => {
            lemma_newlines_split(s, i, j, s.len() as int);
        },
        Err(e) => {
            let p = choose|p: int|
                j <= p <= s.len() && e.line_number == l2 + #[trigger] newlines_between(s, j, p);
            lemma_newlines_split(s, i, j, p);
            assert(i <= p <= s.len() && e.line_number == line + newlines_between(s, i, p));
        },
    }
}

/// The inductive heart of the line-number law.
proof fn lemma_lines_scan_from(s: Seq<char>, i: int, line: int)
    requires
        0 <= i <= s.len(),
    ensures
        lines_accounted(s, i, line),
    decreases s.len() - i,
{
    let n_end = s.len() as int;
    if i == s.len() {
        assert(newlines_between(s, i, n_end) == 0);
        assert(scan_from(s, i, line)->Ok_0.last() == eof_token(line));
    } else {
        let c = s[i];
        if single_punct_kind(c) is Some {
            lemma_lines_scan_from(s, i + 1, line);
            lemma_newlines_one(s, i);
            lemma_lines_token_step(
                s,
                i,
                line,
                i + 1,
                line,
                plain_token(single_punct_kind(c)->0, s.subrange(i, i + 1), line),
            );
        } else if c == '!' || c == '=' || c == '<' || c == '>' {
            if i + 1 < s.len() && s[i + 1] == '=' {
                lemma_lines_scan_from(s, i + 2, line);
                lemma_newlines_one(s, i);
                lemma_newlines_one(s, i + 1);
                lemma_newlines_split(s, i, i + 1, i + 2);
                lemma_lines_token_step(
                    s,
                    i,
                    line,
                    i + 2,
                    line,
                    plain_token(two_char_operator_kind(c), s.subrange(i, i + 2), line),
                );
            } else {
                lemma_lines_scan_from(s, i + 1, line);
                lemma_newlines_one(s, i);
                lemma_lines_token_step(
                    s,
                    i,
                    line,
                    i + 1,
                    line,
                    plain_token(one_char_operator_kind(c), s.subrange(i, i + 1), line),
                );
            }
        } else if c == '/' {
            if i + 1 < s.len() && s[i + 1] == '/' {
                let j = line_comment_end(s, i + 2);
                lemma_line_comment_end(s, i + 2);
                lemma_lines_scan_from(s, j, line);
                lemma_newlines_one(s, i);
                lemma_newlines_one(s, i + 1);
                lemma_newlines_none(s, i + 2, j);
                lemma_newlines_split(s, i, i + 1, i + 2);
                lemma_newlines_split(s, i, i + 2, j);
                lemma_lines_skip_step(s, i, line, j, line);
            } else {
                lemma_lines_scan_from(s, i + 1, line);
                lemma_newlines_one(s, i);
                lemma_lines_token_step(
                    s,
                    i,
                    line,
                    i + 1,
                    line,
                    plain_token(TokenType::Slash, s.subrange(i, i + 1), line),
                );
            }
        } else if c == '\n' {
            lemma_lines_scan_from(s, i + 1, line + 1);
            lemma_newlines_one(s, i);
            lemma_lines_skip_step(s, i, line, i + 1, line + 1);
        } else if c == ' ' || c == '\r' || c == '\t' {
            lemma_lines_scan_from(s, i + 1, line);
            lemma_newlines_one(s, i);
            lemma_lines_skip_step(s, i, line, i + 1, line);
        } else if c == '"' {
            let close = string_close(s, i + 1);
            lemma_string_close(s, i + 1);
            if close >= s.len() {
                lemma_newlines_one(s, i);
                lemma_newlines_split(s, i, i + 1, n_end);
                let e = scan_from(s, i, line)->Err_0;
                assert(e.line_number == line + newlines_between(s, i, n_end));
                assert(i <= n_end <= s.len() && e.line_number == line + newlines_between(
                    s,
                    i,
                    n_end,
                ));
            } else {
                let l2 = line + newlines_between(s, i + 1, close);
                lemma_lines_scan_from(s, close + 1, l2);
                lemma_newlines_one(s, i);
                lemma_newlines_one(s, close);
                lemma_newlines_split(s, i, i + 1, close);
                lemma_newlines_split(s, i, close, close + 1);
                lemma_lines_token_step(
                    s,
                    i,
                    line,
                    close + 1,
                    l2,
                    TokenView {
                        token_type: TokenType::String,
                        lexeme: s.subrange(i, close + 1),
                        line_number: line,
                        literal: Some(LiteralView::Str(s.subrange(i + 1, close))),
                    },
                );
            }
        } else if is_digit_char(c) {
            let e = number_end(s, i);
            let d = digit_run_end(s, i);
            lemma_digit_run_end(s, i);
            lemma_number_end(s, i);
            if d < s.len() && s[d] == '.' && d + 1 < s.len() && is_digit_char(s[d + 1]) {
                lemma_digit_run_end(s, d + 1);
            }
            assert forall|k: int| i <= k < e implies #[trigger] s[k] != '\n' by {
                if k < d {
                    assert(is_digit_char(s[k]));
                } else if k == d {
                    assert(s[k] == '.');
                } else {
                    assert(is_digit_char(s[k]));
                }
            }
            lemma_newlines_none(s, i, e);
            lemma_lines_scan_from(s, e, line);
            lemma_lines_token_step(
                s,
                i,
                line,
                e,
                line,
                TokenView {
                    token_type: TokenType::Number,
                    lexeme: s.subrange(i, e),
                    line_number: line,
                    literal: Some(LiteralView::Num(s.subrange(i, e))),
                },
            );
        } else if is_alpha_char(c) {
            let e = alnum_run_end(s, i);
            lemma_alnum_run_end(s, i);
            assert forall|k: int| i <= k < e implies #[trigger] s[k] != '\n' by {
                assert(is_alnum_char(s[k]));
            }
            lemma_newlines_none(s, i, e);
            lemma_lines_scan_from(s, e, line);
            lemma_lines_token_step(
                s,
                i,
                line,
                e,
                line,
                plain_token(identifier_kind(s.subrange(i, e)), s.subrange(i, e), line),
            );
        } else {
            let e = scan_from(s, i, line)->Err_0;
            assert(newlines_between(s, i, i) == 0);
            assert(i <= i <= s.len() && e.line_number == line + newlines_between(s, i, i));
        }
    }
}

/// For any source: a successful scan's end-of-input token sits on line
/// n + 1, where n is the number of newline characters in the source; a
/// failed scan reports a line equal to one plus the newlines before the
/// point at which scanning stopped.
pub proof fn lemma_reported_lines(s: Seq<char>)
    ensures
        match scan_spec(s) {
            Ok(toks) => toks.len() > 0 && toks.last() == eof_token(
                1 + newlines_between(s, 0, s.len() as int),
            ),
            Err(e) => exists|p: int|
                0 <= p <= s.len() && e.line_number == 1 + #[trigger] newlines_between(s, 0, p),
        },
{
    lemma_lines_scan_from(s, 0, 1);
}

/// Scanning is a pure function of the source text: two sources with the
/// same characters denote structurally identical outcomes, so re-scanning
/// the same immutable source twice cannot differ.
pub proof fn lemma_scan_deterministic(s1: Seq<char>, s2: Seq<char>)
    requires
        s1 == s2,
    ensures
        scan_spec(s1) == scan_spec(s2),
{
}

} // verus!
