use vstd::prelude::*;
use crate::parser::lexer::{Lexer, LexerError, Token, TokenSpec, lex, lex_result_view, token_view};

verus! {

/// Looking at the next token without consuming it: the token stream stays
/// where it is when the token was read, and moves past the bytes of a
/// failed token.
pub open spec fn peek_step(input: Seq<u8>, pos: nat) -> (Result<TokenSpec, LexerError>, nat) {
    let l = lex(input, pos);
    (l.result, if l.result is Ok { pos } else { l.next })
}

/// Consuming the next token.
pub open spec fn advance_step(input: Seq<u8>, pos: nat) -> (Result<TokenSpec, LexerError>, nat) {
    let l = lex(input, pos);
    (l.result, l.next)
}

/// A lexer with one token of look-ahead.
pub struct BufferedLexer {
    lexer: Lexer,
    current: Option<Token>,
    /// Where the token held in `current` starts (before blanks).
    before: Ghost<nat>,
}

impl BufferedLexer {
    /// A held token is the one the lexer reads at `before`.
    pub closed spec fn wf(self) -> bool {
        &&& self.lexer.wf()
        &&& (self.current matches Some(t) ==> {
            &&& self.before@ <= self.lexer.pos()
            &&& lex(self.lexer.input(), self.before@) == crate::parser::lexer::Lexed { result: Ok(token_view(t)), next: self.lexer.pos() }
        })
    }

    /// The input.
    pub closed spec fn input(self) -> Seq<u8> {
        self.lexer.input()
    }

    /// Where the next token starts: the held token counts as not yet read.
    pub closed spec fn pos(self) -> nat {
        if self.current is Some { self.before@ } else { self.lexer.pos() }
    }

    /// A well-formed buffered lexer stands within its input.
    pub proof fn lemma_wf(self)
        requires
            self.wf(),
        ensures
            self.pos() <= self.input().len(),
            self.input().len() < usize::MAX,
    {
        self.lexer.lemma_wf();
    }

    /// A buffered lexer at the start of `input`.
    pub fn new(input: &[u8]) -> (r: Self)
        requires
            input@.len() < usize::MAX,
        ensures
            r.wf(),
            r.input() == input@,
            r.pos() == 0,
    {
        Self { lexer: Lexer::new(input), current: None, before: Ghost(0) }
    }

    /// The next token, left in place.
    pub fn peek(&mut self) -> (r: Result<Token, LexerError>)
        requires
            old(self).wf(),
        ensures
            final(self).wf(),
            final(self).input() == old(self).input(),
            (lex_result_view(r), final(self).pos()) == peek_step(old(self).input(), old(self).pos()),
    {
        if let Some(token) = &self.current {
            Ok(token.clone())
        } else {
            let ghost start = self.lexer.pos();
            let token = self.lexer.parse_token()?;
            self.current = Some(token.clone());
            self.before = Ghost(start);
            proof {
                old(self).lexer.lemma_wf();
                crate::parser::lexer::lemma_lex_bounds(self.lexer.input(), start);
            }
            Ok(token)
        }
    }

    /// The next token, consumed.
    pub fn advance(&mut self) -> (r: Result<Token, LexerError>)
        requires
            old(self).wf(),
        ensures
            final(self).wf(),
            final(self).input() == old(self).input(),
            (lex_result_view(r), final(self).pos()) == advance_step(old(self).input(), old(self).pos()),
    {
        if let Some(token) = self.current.take() {
            Ok(token)
        } else {
            self.lexer.parse_token()
        }
    }
}

} // verus!
