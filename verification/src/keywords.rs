//! The reserved keyword table: an immutable mapping from exact keyword
//! spelling to its token kind, consulted once per identifier-shaped lexeme.
//! Matching is case-sensitive and exact; no other spelling is reserved.

use vstd::prelude::*;

use crate::token::TokenType;

verus! {

/// The keyword table as a function: the kind reserved for an exact
/// spelling, or `None` for any other text. The spellings are grouped by
/// length, which is also how the executable lookup decides.
pub open spec fn keyword_kind(s: Seq<char>) -> Option<TokenType> {
    if s.len() == 2 {
        if s == seq!['i', 'f'] {
            Some(TokenType::If)
        } else if s == seq!['o', 'r'] {
            Some(TokenType::Or)
        } else {
            None
        }
    } else if s.len() == 3 {
        if s == seq!['a', 'n', 'd'] {
            Some(TokenType::And)
        } else if s == seq!['f', 'o', 'r'] {
            Some(TokenType::For)
        } else if s == seq!['f', 'u', 'n'] {
            Some(TokenType::Fun)
        } else if s == seq!['n', 'i', 'l'] {
            Some(TokenType::Nil)
        } else if s == seq!['v', 'a', 'r'] {
            Some(TokenType::Var)
        } else {
            None
        }
    } else if s.len() == 4 {
        if s == seq!['e', 'l', 's', 'e'] {
            Some(TokenType::Else)
        } else if s == seq!['t', 'h', 'i', 's'] {
            Some(TokenType::This)
        } else if s == seq!['t', 'r', 'u', 'e'] {
            Some(TokenType::True)
        } else {
            None
        }
    } else if s.len() == 5 {
        if s == seq!['c', 'l', 'a', 's', 's'] {
            Some(TokenType::Class)
        } else if s == seq!['f', 'a', 'l', 's', 'e'] {
            Some(TokenType::False)
        } else if s == seq!['p', 'r', 'i', 'n', 't'] {
            Some(TokenType::Print)
        } else if s == seq!['s', 'u', 'p', 'e', 'r'] {
            Some(TokenType::Super)
        } else if s == seq!['w', 'h', 'i', 'l', 'e'] {
            Some(TokenType::While)
        } else {
            None
        }
    } else if s.len() == 6 {
        if s == seq!['r', 'e', 't', 'u', 'r', 'n'] {
            Some(TokenType::Return)
        } else {
            None
        }
    } else {
        None
    }
}

/// The kind of an identifier-shaped lexeme: its reserved kind if the text
/// is a keyword, otherwise `Identifier`.
pub open spec fn identifier_kind(s: Seq<char>) -> TokenType {
    match keyword_kind(s) {
        Some(k) => k,
        None => TokenType::Identifier,
    }
}

/// Looks the text `chars[start..end]` up in the reserved keyword table,
/// returning its keyword kind or `Identifier`.
pub fn keyword_or_identifier(chars: &Vec<char>, start: usize, end: usize) -> (t: TokenType)
    requires
        start <= end <= chars@.len(),
    ensures
        t == identifier_kind(chars@.subrange(start as int, end as int)),
{
    let n = end - start;
    let ghost s = chars@.subrange(start as int, end as int);
    proof {
        assert(s.len() == n);
        assert(forall|j: int| 0 <= j < n ==> s[j] == chars@[start as int + j]);
    }
    if n == 2 {
        let c0 = chars[start];
        let c1 = chars[start + 1];
        proof {
            assert(s[0] == c0 && s[1] == c1);
            let k_if = seq!['i', 'f'];
            let k_or = seq!['o', 'r'];
            assert(k_if.len() == 2 && k_if[0] == 'i' && k_if[1] == 'f');
            assert(k_or.len() == 2 && k_or[0] == 'o' && k_or[1] == 'r');
        }
        if c0 == 'i' && c1 == 'f' {
            proof {
                assert(s =~= seq!['i', 'f']);
            }
            TokenType::If
        } else if c0 == 'o' && c1 == 'r' {
            proof {
                assert(s =~= seq!['o', 'r']);
            }
            TokenType::Or
        } else {
            TokenType::Identifier
        }
    } else if n == 3 {
        let c0 = chars[start];
        let c1 = chars[start + 1];
        let c2 = chars[start + 2];
        proof {
            assert(s[0] == c0 && s[1] == c1 && s[2] == c2);
            let k_and = seq!['a', 'n', 'd'];
            let k_for = seq!['f', 'o', 'r'];
            let k_fun = seq!['f', 'u', 'n'];
            let k_nil = seq!['n', 'i', 'l'];
            let k_var = seq!['v', 'a', 'r'];
            assert(k_and.len() == 3 && k_and[0] == 'a' && k_and[1] == 'n' && k_and[2] == 'd');
            assert(k_for.len() == 3 && k_for[0] == 'f' && k_for[1] == 'o' && k_for[2] == 'r');
            assert(k_fun.len() == 3 && k_fun[0] == 'f' && k_fun[1] == 'u' && k_fun[2] == 'n');
            assert(k_nil.len() == 3 && k_nil[0] == 'n' && k_nil[1] == 'i' && k_nil[2] == 'l');
            assert(k_var.len() == 3 && k_var[0] == 'v' && k_var[1] == 'a' && k_var[2] == 'r');
        }
        if c0 == 'a' && c1 == 'n' && c2 == 'd' {
            proof {
                assert(s =~= seq!['a', 'n', 'd']);
            }
            TokenType::And
        } else if c0 == 'f' && c1 == 'o' && c2 == 'r' {
            proof {
                assert(s =~= seq!['f', 'o', 'r']);
            }
            TokenType::For
        } else if c0 == 'f' && c1 == 'u' && c2 == 'n' {
            proof {
                assert(s =~= seq!['f', 'u', 'n']);
            }
            TokenType::Fun
        } else if c0 == 'n' && c1 == 'i' && c2 == 'l' {
            proof {
                assert(s =~= seq!['n', 'i', 'l']);
            }
            TokenType::Nil
        } else if c0 == 'v' && c1 == 'a' && c2 == 'r' {
            proof {
                assert(s =~= seq!['v', 'a', 'r']);
            }
            TokenType::Var
        } else {
            TokenType::Identifier
        }
    } else if n == 4 {
        let c0 = chars[start];
        let c1 = chars[start + 1];
        let c2 = chars[start + 2];
        let c3 = chars[start + 3];
        proof {
            assert(s[0] == c0 && s[1] == c1 && s[2] == c2 && s[3] == c3);
            let k_else = seq!['e', 'l', 's', 'e'];
            let k_this = seq!['t', 'h', 'i', 's'];
            let k_true = seq!['t', 'r', 'u', 'e'];
            assert(k_else.len() == 4 && k_else[0] == 'e' && k_else[1] == 'l' && k_else[2] == 's'
                && k_else[3] == 'e');
            assert(k_this.len() == 4 && k_this[0] == 't' && k_this[1] == 'h' && k_this[2] == 'i'
                && k_this[3] == 's');
            assert(k_true.len() == 4 && k_true[0] == 't' && k_true[1] == 'r' && k_true[2] == 'u'
                && k_true[3] == 'e');
        }
        if c0 == 'e' && c1 == 'l' && c2 == 's' && c3 == 'e' {
            proof {
                assert(s =~= seq!['e', 'l', 's', 'e']);
            }
            TokenType::Else
        } else if c0 == 't' && c1 == 'h' && c2 == 'i' && c3 == 's' {
            proof {
                assert(s =~= seq!['t', 'h', 'i', 's']);
            }
            TokenType::This
        } else if c0 == 't' && c1 == 'r' && c2 == 'u' && c3 == 'e' {
            proof {
                assert(s =~= seq!['t', 'r', 'u', 'e']);
            }
            TokenType::True
        } else {
            TokenType::Identifier
        }
    } else if n == 5 {
        let c0 = chars[start];
        let c1 = chars[start + 1];
        let c2 = chars[start + 2];
        let c3 = chars[start + 3];
        let c4 = chars[start + 4];
        proof {
            assert(s[0] == c0 && s[1] == c1 && s[2] == c2 && s[3] == c3 && s[4] == c4);
            let k_class = seq!['c', 'l', 'a', 's', 's'];
            let k_false = seq!['f', 'a', 'l', 's', 'e'];
            let k_print = seq!['p', 'r', 'i', 'n', 't'];
            let k_super = seq!['s', 'u', 'p', 'e', 'r'];
            let k_while = seq!['w', 'h', 'i', 'l', 'e'];
            assert(k_class.len() == 5 && k_class[0] == 'c' && k_class[1] == 'l' && k_class[2] == 'a'
                && k_class[3] == 's' && k_class[4] == 's');
            assert(k_false.len() == 5 && k_false[0] == 'f' && k_false[1] == 'a' && k_false[2] == 'l'
                && k_false[3] == 's' && k_false[4] == 'e');
            assert(k_print.len() == 5 && k_print[0] == 'p' && k_print[1] == 'r' && k_print[2] == 'i'
                && k_print[3] == 'n' && k_print[4] == 't');
            assert(k_super.len() == 5 && k_super[0] == 's' && k_super[1] == 'u' && k_super[2] == 'p'
                && k_super[3] == 'e' && k_super[4] == 'r');
            assert(k_while.len() == 5 && k_while[0] == 'w' && k_while[1] == 'h' && k_while[2] == 'i'
                && k_while[3] == 'l' && k_while[4] == 'e');
        }
        if c0 == 'c' && c1 == 'l' && c2 == 'a' && c3 == 's' && c4 == 's' {
            proof {
                assert(s =~= seq!['c', 'l', 'a', 's', 's']);
            }
            TokenType::Class
        } else if c0 == 'f' && c1 == 'a' && c2 == 'l' && c3 == 's' && c4 == 'e' {
            proof {
                assert(s =~= seq!['f', 'a', 'l', 's', 'e']);
            }
            TokenType::False
        } else if c0 == 'p' && c1 == 'r' && c2 == 'i' && c3 == 'n' && c4 == 't' {
            proof {
                assert(s =~= seq!['p', 'r', 'i', 'n', 't']);
            }
            TokenType::Print
        } else if c0 == 's' && c1 == 'u' && c2 == 'p' && c3 == 'e' && c4 == 'r' {
            proof {
                assert(s =~= seq!['s', 'u', 'p', 'e', 'r']);
            }
            TokenType::Super
        } else if c0 == 'w' && c1 == 'h' && c2 == 'i' && c3 == 'l' && c4 == 'e' {
            proof {
                assert(s =~= seq!['w', 'h', 'i', 'l', 'e']);
            }
            TokenType::While
        } else {
            TokenType::Identifier
        }
    } else if n == 6 {
        let c0 = chars[start];
        let c1 = chars[start + 1];
        let c2 = chars[start + 2];
        let c3 = chars[start + 3];
        let c4 = chars[start + 4];
        let c5 = chars[start + 5];
        proof {
            assert(s[0] == c0 && s[1] == c1 && s[2] == c2 && s[3] == c3 && s[4] == c4 && s[5]
                == c5);
            let k_return = seq!['r', 'e', 't', 'u', 'r', 'n'];
            assert(k_return.len() == 6 && k_return[0] == 'r' && k_return[1] == 'e' && k_return[2]
                == 't' && k_return[3] == 'u' && k_return[4] == 'r' && k_return[5] == 'n');
        }
        if c0 == 'r' && c1 == 'e' && c2 == 't' && c3 == 'u' && c4 == 'r' && c5 == 'n' {
            proof {
                assert(s =~= seq!['r', 'e', 't', 'u', 'r', 'n']);
            }
            TokenType::Return
        } else {
            TokenType::Identifier
        }
    } else {
        TokenType::Identifier
    }
}

} // verus!
