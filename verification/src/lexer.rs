//! The lexer: a pull-based scanner that yields one token per call.
//!
//! The behaviour of [`Lexer::next_token`] is pinned down completely by the
//! specification function [`token_at`]: given the source and a position, it
//! says which kind the next token has, which text it matched, and where the
//! scan stands afterwards.

use vstd::prelude::*;
use vstd::string::*;
use crate::chars::{
    is_ws, is_ident_start, is_ident_char, is_dec_digit, is_number_char, ws, ident_start,
    ident_char, dec_digit, number_char, push_char, str_to_chars,
};
use crate::token::{Token, TokenKind};

verus! {

/// The first position at or after `i` that does not hold whitespace.
pub open spec fn skip_ws_from(s: Seq<char>, i: nat) -> nat
    decreases s.len() - i
    when i <= s.len()
{
    if i < s.len() && is_ws(s[i as int]) {
        skip_ws_from(s, i + 1)
    } else {
        i
    }
}

/// The end of the run of identifier characters that starts at `i`.
pub open spec fn scan_ident(s: Seq<char>, i: nat) -> nat
    decreases s.len() - i
    when i <= s.len()
{
    if i < s.len() && is_ident_char(s[i as int]) {
        scan_ident(s, i + 1)
    } else {
        i
    }
}

/// The end of the run of number characters that starts at `i`.
pub open spec fn scan_number(s: Seq<char>, i: nat) -> nat
    decreases s.len() - i
    when i <= s.len()
{
    if i < s.len() && is_number_char(s[i as int]) {
        scan_number(s, i + 1)
    } else {
        i
    }
}

pub proof fn lemma_skip_ws(s: Seq<char>, i: nat)
    requires
        i <= s.len(),
    ensures
        i <= skip_ws_from(s, i) <= s.len(),
        skip_ws_from(s, i) < s.len() ==> !is_ws(s[skip_ws_from(s, i) as int]),
    decreases s.len() - i,
{
    if i < s.len() && is_ws(s[i as int]) {
        lemma_skip_ws(s, i + 1);
    }
}

pub proof fn lemma_scan_ident(s: Seq<char>, i: nat)
    requires
        i <= s.len(),
    ensures
        i <= scan_ident(s, i) <= s.len(),
        forall|j: int| i <= j < scan_ident(s, i) ==> is_ident_char(s[j]),
    decreases s.len() - i,
{
    if i < s.len() && is_ident_char(s[i as int]) {
        lemma_scan_ident(s, i + 1);
    }
}

pub proof fn lemma_scan_number(s: Seq<char>, i: nat)
    requires
        i <= s.len(),
    ensures
        i <= scan_number(s, i) <= s.len(),
        forall|j: int| i <= j < scan_number(s, i) ==> is_number_char(s[j]),
    decreases s.len() - i,
{
    if i < s.len() && is_number_char(s[i as int]) {
        lemma_scan_number(s, i + 1);
    }
}

/// The kind an identifier-shaped span resolves to: one of the seven keywords,
/// or `Identifier` for anything else.
pub open spec fn keyword_kind(lit: Seq<char>) -> TokenKind {
    if lit == "if"@ {
        TokenKind::If
    } else if lit == "else"@ {
        TokenKind::Else
    } else if lit == "true"@ {
        TokenKind::True
    } else if lit == "false"@ {
        TokenKind::False
    } else if lit == "function"@ {
        TokenKind::Function
    } else if lit == "let"@ {
        TokenKind::Let
    } else if lit == "return"@ {
        TokenKind::Return
    } else {
        TokenKind::Identifier
    }
}

/// What one call of `next_token` yields and where it leaves the scan.
pub struct SpecToken {
    pub kind: TokenKind,
    pub literal: Seq<char>,
    pub next: nat,
}

/// The token found at position `i` of `s`: whitespace is skipped, then the
/// first character decides. `=` and `!` look ahead two characters to tell
/// `=`/`==`/`===` and `!`/`!=`/`!==` apart; an identifier span is resolved
/// against the keyword table; a digit starts a permissive number span; any
/// other character is one `Illegal` token carrying that character; the end of
/// input is `EOF`, at which the position no longer moves.
pub open spec fn token_at(s: Seq<char>, i: nat) -> SpecToken {
    let j = skip_ws_from(s, i);
    if j >= s.len() {
        SpecToken { kind: TokenKind::EOF, literal: Seq::empty(), next: s.len() }
    } else {
        let c = s[j as int];
        if c == '=' {
            if j + 1 < s.len() && s[j + 1 as int] == '=' {
                if j + 2 < s.len() && s[j + 2 as int] == '=' {
                    SpecToken { kind: TokenKind::SEQ, literal: Seq::empty(), next: j + 3 }
                } else {
                    SpecToken { kind: TokenKind::EQ, literal: Seq::empty(), next: j + 2 }
                }
            } else {
                SpecToken { kind: TokenKind::Assign, literal: Seq::empty(), next: j + 1 }
            }
        } else if c == '!' {
            if j + 1 < s.len() && s[j + 1 as int] == '=' {
                if j + 2 < s.len() && s[j + 2 as int] == '=' {
                    SpecToken { kind: TokenKind::SNE, literal: Seq::empty(), next: j + 3 }
                } else {
                    SpecToken { kind: TokenKind::NE, literal: Seq::empty(), next: j + 2 }
                }
            } else {
                SpecToken { kind: TokenKind::Band, literal: Seq::empty(), next: j + 1 }
            }
        } else if c == '+' {
            SpecToken { kind: TokenKind::Plus, literal: Seq::empty(), next: j + 1 }
        } else if c == '-' {
            SpecToken { kind: TokenKind::Minus, literal: Seq::empty(), next: j + 1 }
        } else if c == '*' {
            SpecToken { kind: TokenKind::Asterisk, literal: Seq::empty(), next: j + 1 }
        } else if c == '/' {
            SpecToken { kind: TokenKind::Slash, literal: Seq::empty(), next: j + 1 }
        } else if c == '<' {
            SpecToken { kind: TokenKind::LT, literal: Seq::empty(), next: j + 1 }
        } else if c == '>' {
            SpecToken { kind: TokenKind::GT, literal: Seq::empty(), next: j + 1 }
        } else if c == ',' {
            SpecToken { kind: TokenKind::Commas, literal: Seq::empty(), next: j + 1 }
        } else if c == ';' {
            SpecToken { kind: TokenKind::Semicolon, literal: Seq::empty(), next: j + 1 }
        } else if c == '(' {
            SpecToken { kind: TokenKind::LParen, literal: Seq::empty(), next: j + 1 }
        } else if c == ')' {
            SpecToken { kind: TokenKind::RParen, literal: Seq::empty(), next: j + 1 }
        } else if c == '{' {
            SpecToken { kind: TokenKind::LBrace, literal: Seq::empty(), next: j + 1 }
        } else if c == '}' {
            SpecToken { kind: TokenKind::RBrace, literal: Seq::empty(), next: j + 1 }
        } else if c == '.' {
            SpecToken { kind: TokenKind::Dot, literal: Seq::empty(), next: j + 1 }
        } else if is_ident_start(c) {
            let e = scan_ident(s, j);
            let lit = s.subrange(j as int, e as int);
            let k = keyword_kind(lit);
            SpecToken {
                kind: k,
                literal: if k == TokenKind::Identifier { lit } else { Seq::empty() },
                next: e,
            }
        } else if is_dec_digit(c) {
            let e = scan_number(s, j);
            SpecToken { kind: TokenKind::Number, literal: s.subrange(j as int, e as int), next: e }
        } else {
            SpecToken { kind: TokenKind::Illegal, literal: seq![c], next: j + 1 }
        }
    }
}

/// Basic facts about `token_at`: the next position stays inside the input,
/// a token other than `EOF` consumes at least one character, and `EOF` means
/// the input is spent.
pub proof fn lemma_token_at(s: Seq<char>, i: nat)
    requires
        i <= s.len(),
    ensures
        token_at(s, i).next <= s.len(),
        token_at(s, i).kind != TokenKind::EOF ==> i < token_at(s, i).next,
        token_at(s, i).kind == TokenKind::EOF ==> token_at(s, i).next == s.len(),
{
    lemma_skip_ws(s, i);
    let j = skip_ws_from(s, i);
    if j < s.len() {
        let c = s[j as int];
        if is_ident_start(c) && !(c == '=' || c == '!') {
            lemma_scan_ident(s, j);
            assert(scan_ident(s, j) == scan_ident(s, j + 1) || !is_ident_char(s[j as int]));
            assert(is_ident_char(c));
            lemma_scan_ident(s, j + 1);
        }
        if is_dec_digit(c) {
            lemma_scan_number(s, j);
            assert(is_number_char(c));
            lemma_scan_number(s, j + 1);
        }
    }
}

/// A stateful scanner over a source text: the characters of the source, and
/// the position the next scan starts from.
pub struct Lexer {
    input: Vec<char>,
    position: usize,
}

impl Lexer {
    /// The source text being scanned.
    pub closed spec fn src(self) -> Seq<char> {
        self.input@
    }

    /// The position the next token will be scanned from.
    pub closed spec fn pos(self) -> nat {
        self.position as nat
    }

    /// The scan position never leaves the input.
    pub open spec fn wf(self) -> bool {
        self.pos() <= self.src().len()
    }

    /// Captures the full input; scanning starts at its beginning.
    pub fn new(input: &str) -> (l: Lexer)
        ensures
            l.src() == input@,
            l.pos() == 0,
            l.wf(),
    {
        Lexer { input: str_to_chars(input), position: 0 }
    }

    /// Advances past the current character; at the end of input the position
    /// stays put, so the scan never leaves the buffer.
    fn read_char(&mut self)
        requires
            old(self).wf(),
        ensures
            final(self).wf(),
            final(self).src() == old(self).src(),
            final(self).pos() == if old(self).pos() < old(self).src().len() {
                old(self).pos() + 1
            } else {
                old(self).pos()
            },
    {
        if self.position < self.input.len() {
            self.position = self.position + 1;
        }
    }

    /// The character one past the current one, if any.
    fn peak_char(&self) -> (c: Option<char>)
        requires
            self.wf(),
        ensures
            c == if self.pos() + 1 < self.src().len() {
                Some(self.src()[self.pos() + 1 as int])
            } else {
                None::<char>
            },
    {
        let len = self.input.len();
        if self.position < len && len - self.position > 1 {
            Some(self.input[self.position + 1])
        } else {
            None
        }
    }

    /// The character two past the current one, if any.
    fn peak_third_char(&self) -> (c: Option<char>)
        requires
            self.wf(),
        ensures
            c == if self.pos() + 2 < self.src().len() {
                Some(self.src()[self.pos() + 2 as int])
            } else {
                None::<char>
            },
    {
        let len = self.input.len();
        if self.position < len && len - self.position > 2 {
            Some(self.input[self.position + 2])
        } else {
            None
        }
    }

    /// Moves the position past any whitespace.
    fn skip_whitespace(&mut self)
        requires
            old(self).wf(),
        ensures
            final(self).wf(),
            final(self).src() == old(self).src(),
            final(self).pos() == skip_ws_from(old(self).src(), old(self).pos()),
    {
        while self.position < self.input.len() && ws(self.input[self.position])
            invariant
                self.wf(),
                self.src() == old(self).src(),
                skip_ws_from(old(self).src(), old(self).pos()) == skip_ws_from(
                    self.src(),
                    self.pos(),
                ),
            decreases self.src().len() - self.pos(),
        {
            self.position = self.position + 1;
        }
    }

    /// Consumes the identifier span that starts at the current position and
    /// returns its text.
    fn read_identifier(&mut self) -> (name: String)
        requires
            old(self).wf(),
        ensures
            final(self).wf(),
            final(self).src() == old(self).src(),
            final(self).pos() == scan_ident(old(self).src(), old(self).pos()),
            name@ == old(self).src().subrange(
                old(self).pos() as int,
                final(self).pos() as int,
            ),
    {
        let mut name = String::new();
        while self.position < self.input.len() && ident_char(self.input[self.position])
            invariant
                self.wf(),
                self.src() == old(self).src(),
                old(self).pos() <= self.pos(),
                scan_ident(old(self).src(), old(self).pos()) == scan_ident(
                    self.src(),
                    self.pos(),
                ),
                name@ == old(self).src().subrange(old(self).pos() as int, self.pos() as int),
            decreases self.src().len() - self.pos(),
        {
            push_char(&mut name, self.input[self.position]);
            self.position = self.position + 1;
            proof {
                assert(name@ =~= old(self).src().subrange(
                    old(self).pos() as int,
                    self.pos() as int,
                ));
            }
        }
        name
    }

    /// Consumes the permissive number span (letters, digits and `.`) that
    /// starts at the current position and returns its text.
    fn read_number(&mut self) -> (lit: String)
        requires
            old(self).wf(),
        ensures
            final(self).wf(),
            final(self).src() == old(self).src(),
            final(self).pos() == scan_number(old(self).src(), old(self).pos()),
            lit@ == old(self).src().subrange(old(self).pos() as int, final(self).pos() as int),
    {
        let mut lit = String::new();
        while self.position < self.input.len() && number_char(self.input[self.position])
            invariant
                self.wf(),
                self.src() == old(self).src(),
                old(self).pos() <= self.pos(),
                scan_number(old(self).src(), old(self).pos()) == scan_number(
                    self.src(),
                    self.pos(),
                ),
                lit@ == old(self).src().subrange(old(self).pos() as int, self.pos() as int),
            decreases self.src().len() - self.pos(),
        {
            push_char(&mut lit, self.input[self.position]);
            self.position = self.position + 1;
            proof {
                assert(lit@ =~= old(self).src().subrange(
                    old(self).pos() as int,
                    self.pos() as int,
                ));
            }
        }
        lit
    }

    /// Resolves an identifier span against the keyword table.
    fn lookup_ident(name: String) -> (t: Token)
        ensures
            t.kind == keyword_kind(name@),
            t.literal@ == if keyword_kind(name@) == TokenKind::Identifier {
                name@
            } else {
                Seq::<char>::empty()
            },
    {
        if string_is(&name, "if") {
            Token::of_kind(TokenKind::If)
        } else if string_is(&name, "else") {
            Token::of_kind(TokenKind::Else)
        } else if string_is(&name, "true") {
            Token::of_kind(TokenKind::True)
        } else if string_is(&name, "false") {
            Token::of_kind(TokenKind::False)
        } else if string_is(&name, "function") {
            Token::of_kind(TokenKind::Function)
        } else if string_is(&name, "let") {
            Token::of_kind(TokenKind::Let)
        } else if string_is(&name, "return") {
            Token::of_kind(TokenKind::Return)
        } else {
            Token { kind: TokenKind::Identifier, literal: name }
        }
    }

    /// Returns the next lexical unit and advances the scan; on spent input it
    /// keeps returning `EOF` without moving. The result is exactly
    /// [`token_at`] of the source at the old position.
    pub fn next_token(&mut self) -> (t: Token)
        requires
            old(self).wf(),
        ensures
            final(self).wf(),
            final(self).src() == old(self).src(),
            t.kind == token_at(old(self).src(), old(self).pos()).kind,
            t.literal@ == token_at(old(self).src(), old(self).pos()).literal,
            final(self).pos() == token_at(old(self).src(), old(self).pos()).next,
    {
        self.skip_whitespace();
        if self.position == self.input.len() {
            return Token::of_kind(TokenKind::EOF);
        }
        let c = self.input[self.position];
        if c == '=' {
            let t = if self.peak_char() == Some('=') {
                if self.peak_third_char() == Some('=') {
                    self.read_char();
                    self.read_char();
                    Token::of_kind(TokenKind::SEQ)
                } else {
                    self.read_char();
                    Token::of_kind(TokenKind::EQ)
                }
            } else {
                Token::of_kind(TokenKind::Assign)
            };
            self.read_char();
            t
        } else if c == '!' {
            let t = if self.peak_char() == Some('=') {
                if self.peak_third_char() == Some('=') {
                    self.read_char();
                    self.read_char();
                    Token::of_kind(TokenKind::SNE)
                } else {
                    self.read_char();
                    Token::of_kind(TokenKind::NE)
                }
            } else {
                Token::of_kind(TokenKind::Band)
            };
            self.read_char();
            t
        } else if c == '+' {
            self.read_char();
            Token::of_kind(TokenKind::Plus)
        } else if c == '-' {
            self.read_char();
            Token::of_kind(TokenKind::Minus)
        } else if c == '*' {
            self.read_char();
            Token::of_kind(TokenKind::Asterisk)
        } else if c == '/' {
            self.read_char();
            Token::of_kind(TokenKind::Slash)
        } else if c == '<' {
            self.read_char();
            Token::of_kind(TokenKind::LT)
        } else if c == '>' {
            self.read_char();
            Token::of_kind(TokenKind::GT)
        } else if c == ',' {
            self.read_char();
            Token::of_kind(TokenKind::Commas)
        } else if c == ';' {
            self.read_char();
            Token::of_kind(TokenKind::Semicolon)
        } else if c == '(' {
            self.read_char();
            Token::of_kind(TokenKind::LParen)
        } else if c == ')' {
            self.read_char();
            Token::of_kind(TokenKind::RParen)
        } else if c == '{' {
            self.read_char();
            Token::of_kind(TokenKind::LBrace)
        } else if c == '}' {
            self.read_char();
            Token::of_kind(TokenKind::RBrace)
        } else if c == '.' {
            self.read_char();
            Token::of_kind(TokenKind::Dot)
        } else if ident_start(c) {
            let name = self.read_identifier();
            Lexer::lookup_ident(name)
        } else if dec_digit(c) {
            let lit = self.read_number();
            Token { kind: TokenKind::Number, literal: lit }
        } else {
            let mut lit = String::new();
            push_char(&mut lit, c);
            self.read_char();
            proof {
                assert(lit@ =~= seq![c]);
            }
            Token { kind: TokenKind::Illegal, literal: lit }
        }
    }
}

/// A multi-character operator sequence lexes as one token, never as a
/// prefix split: `===` is a single `SEQ` (not `EQ` then `Assign`), `!==` a
/// single `SNE`, `==` is `EQ`, and `!=` is `NE`, each consuming its whole
/// span.
pub proof fn lemma_operator_munch(s: Seq<char>, i: nat)
    requires
        i < s.len(),
        s[i as int] == '=' || s[i as int] == '!',
    ensures
        s[i as int] == '=' && i + 2 < s.len() && s[i + 1 as int] == '=' && s[i + 2 as int] == '='
            ==> token_at(s, i).kind == TokenKind::SEQ && token_at(s, i).next == i + 3,
        s[i as int] == '=' && i + 1 < s.len() && s[i + 1 as int] == '=' && !(i + 2 < s.len()
            && s[i + 2 as int] == '=') ==> token_at(s, i).kind == TokenKind::EQ && token_at(
            s,
            i,
        ).next == i + 2,
        s[i as int] == '!' && i + 2 < s.len() && s[i + 1 as int] == '=' && s[i + 2 as int] == '='
            ==> token_at(s, i).kind == TokenKind::SNE && token_at(s, i).next == i + 3,
        s[i as int] == '!' && i + 1 < s.len() && s[i + 1 as int] == '=' && !(i + 2 < s.len()
            && s[i + 2 as int] == '=') ==> token_at(s, i).kind == TokenKind::NE && token_at(
            s,
            i,
        ).next == i + 2,
{
    assert(!is_ws(s[i as int]));
    assert(skip_ws_from(s, i) == i);
}

/// Keyword and identifier spans are told apart by text alone: a span that
/// starts like an identifier is munched to its full length, its kind is a
/// keyword exactly when its text is one of `if`, `else`, `true`, `false`,
/// `function`, `let`, `return`, and any other span is an `Identifier` token
/// whose literal preserves the text exactly.
pub proof fn lemma_keyword_disambiguation(s: Seq<char>, i: nat)
    requires
        i < s.len(),
        is_ident_start(s[i as int]),
    ensures
        token_at(s, i).next == scan_ident(s, i),
        token_at(s, i).kind == keyword_kind(s.subrange(i as int, scan_ident(s, i) as int)),
        token_at(s, i).kind == TokenKind::Identifier ==> token_at(s, i).literal == s.subrange(
            i as int,
            scan_ident(s, i) as int,
        ),
        token_at(s, i).kind != TokenKind::Identifier ==> {
            let lit = s.subrange(i as int, scan_ident(s, i) as int);
            lit == "if"@ || lit == "else"@ || lit == "true"@ || lit == "false"@ || lit
                == "function"@ || lit == "let"@ || lit == "return"@
        },
{
    assert(!is_ws(s[i as int]));
    assert(skip_ws_from(s, i) == i);
}

/// Exhaustion is stable: a scan that yields `EOF` stands at the end of the
/// input, and the token at the end of the input is again `EOF`, standing
/// still — so repeated calls of `next_token` keep yielding `EOF` without
/// ever reading past the buffer.
pub proof fn lemma_eof_idempotent(s: Seq<char>, i: nat)
    requires
        i <= s.len(),
        token_at(s, i).kind == TokenKind::EOF,
    ensures
        token_at(s, i).next == s.len(),
        token_at(s, s.len() as nat).kind == TokenKind::EOF,
        token_at(s, s.len() as nat).next == s.len(),
        token_at(s, s.len() as nat).literal == Seq::<char>::empty(),
{
    lemma_token_at(s, i);
    assert(skip_ws_from(s, s.len() as nat) == s.len());
}

/// Whether `name` holds exactly the text of `kw`.
fn string_is(name: &String, kw: &str) -> (r: bool)
    ensures
        r == (name@ == kw@),
{
    let k = String::from_str(kw);
    *name == k
}

} // verus!
