use vstd::prelude::*;

use crate::error::FatalError;
use crate::{
    is_digit, is_skippable, is_valid_ident_char, is_valid_ident_char_start, push_char,
    spec_ident_char, spec_ident_start, spec_is_digit, spec_is_skippable,
};

verus! {

#[derive(Clone, Copy, Debug, PartialEq, Eq, Structural)]
pub enum TokenType {
    Identifier,
    Number,
    String,
    Semicolon,
    Var,
    Const,
    Function,
    Return,
    If,
    Else,
    While,
    For,
    In,
    Comma,
    Colon,
    Dot,
    OpenBrace,
    CloseBrace,
    OpenParen,
    CloseParen,
    OpenBracket,
    CloseBracket,
    BinaryOperator,
    Equals,
    RightAngleBracket,
    LeftAngleBracket,
    Bang,
    EOF,
}

/// A lexeme: its kind and its text (for a string literal, the decoded
/// contents).
#[derive(Debug)]
pub struct Token {
    pub value: Option<String>,
    pub token_type: TokenType,
}

impl View for Token {
    type V = (TokenType, Seq<char>);

    open spec fn view(&self) -> (TokenType, Seq<char>) {
        (
            self.token_type,
            match self.value {
                Some(s) => s@,
                None => Seq::empty(),
            },
        )
    }
}

impl Token {
    pub fn new(token_type: TokenType, value: String) -> (r: Token)
        ensures
            r@ == (token_type, value@),
            r.value is Some,
    {
        Token { value: Some(value), token_type }
    }

    pub fn get_value(&self) -> (r: Option<&String>)
        ensures
            r == match self.value {
                Some(ref s) => Some(s),
                None => None::<&String>,
            },
    {
        match &self.value {
            Some(s) => Some(s),
            None => None,
        }
    }

    pub fn get_token_type(&self) -> (r: TokenType)
        ensures
            r == self@.0,
    {
        self.token_type
    }

    /// A copy of the token.
    pub fn duplicate(&self) -> (r: Token)
        ensures
            r@ == self@,
            r.value is Some <==> self.value is Some,
    {
        match &self.value {
            Some(s) => Token { value: Some(s.clone()), token_type: self.token_type },
            None => Token { value: None, token_type: self.token_type },
        }
    }
}

/// The kind of a one-character token, if `c` is one.
pub open spec fn single_char_kind(c: char) -> Option<TokenType> {
    if c == '(' {
        Some(TokenType::OpenParen)
    } else if c == ')' {
        Some(TokenType::CloseParen)
    } else if c == '{' {
        Some(TokenType::OpenBrace)
    } else if c == '}' {
        Some(TokenType::CloseBrace)
    } else if c == '[' {
        Some(TokenType::OpenBracket)
    } else if c == ']' {
        Some(TokenType::CloseBracket)
    } else if c == ',' {
        Some(TokenType::Comma)
    } else if c == '.' {
        Some(TokenType::Dot)
    } else if c == ':' {
        Some(TokenType::Colon)
    } else if c == '+' || c == '-' || c == '*' || c == '/' || c == '%' {
        Some(TokenType::BinaryOperator)
    } else if c == '=' {
        Some(TokenType::Equals)
    } else if c == '<' {
        Some(TokenType::LeftAngleBracket)
    } else if c == '>' {
        Some(TokenType::RightAngleBracket)
    } else if c == '!' {
        Some(TokenType::Bang)
    } else if c == ';' {
        Some(TokenType::Semicolon)
    } else {
        None
    }
}

/// The kind of a reserved word, if `w` is one.
pub open spec fn keyword_kind(w: Seq<char>) -> Option<TokenType> {
    if w == seq!['v', 'a', 'r'] {
        Some(TokenType::Var)
    } else if w == seq!['c', 'o', 'n', 's', 't'] {
        Some(TokenType::Const)
    } else if w == seq!['f', 'u', 'n', 'c', 't', 'i', 'o', 'n'] {
        Some(TokenType::Function)
    } else if w == seq!['r', 'e', 't', 'u', 'r', 'n'] {
        Some(TokenType::Return)
    } else if w == seq!['i', 'f'] {
        Some(TokenType::If)
    } else if w == seq!['e', 'l', 's', 'e'] {
        Some(TokenType::Else)
    } else if w == seq!['w', 'h', 'i', 'l', 'e'] {
        Some(TokenType::While)
    } else if w == seq!['f', 'o', 'r'] {
        Some(TokenType::For)
    } else if w == seq!['i', 'n'] {
        Some(TokenType::In)
    } else {
        None
    }
}

/// End of the run of identifier characters that starts at `i`.
pub open spec fn ident_end(s: Seq<char>, i: int) -> int
    decreases s.len() - i,
{
    if 0 <= i < s.len() && spec_ident_char(s[i]) {
        ident_end(s, i + 1)
    } else {
        i
    }
}

/// End of the run of digits and dots that starts at `i`.
pub open spec fn number_end(s: Seq<char>, i: int) -> int
    decreases s.len() - i,
{
    if 0 <= i < s.len() && (spec_is_digit(s[i]) || s[i] == '.') {
        number_end(s, i + 1)
    } else {
        i
    }
}

/// The character that the escape `\c` stands for.
pub open spec fn escaped_char(c: char) -> Option<char> {
    if c == '\\' || c == '"' || c == '\'' {
        Some(c)
    } else if c == 'n' {
        Some('\n')
    } else if c == 't' {
        Some('\t')
    } else {
        None
    }
}

/// Scans the body of a string literal from `i` (just after the opening
/// quote, or after what `acc` decoded): the decoded contents and the index
/// after the closing quote.
pub open spec fn string_scan(s: Seq<char>, i: int, acc: Seq<char>) -> Result<
    (Seq<char>, int),
    FatalError,
>
    decreases s.len() - i,
{
    if i < 0 || i >= s.len() {
        Err(FatalError::UnterminatedString)
    } else if s[i] == '"' {
        Ok((acc, i + 1))
    } else if s[i] == '\\' {
        if i + 1 >= s.len() {
            Err(FatalError::UnterminatedString)
        } else {
            match escaped_char(s[i + 1]) {
                Some(c) => string_scan(s, i + 2, acc.push(c)),
                None => Err(FatalError::InvalidEscape(s[i + 1])),
            }
        }
    } else {
        string_scan(s, i + 1, acc.push(s[i]))
    }
}

/// What the scanner does at index `i`.
pub enum LexStep {
    /// Nothing is emitted; scanning goes on at the index.
    Skip(int),
    /// A token is emitted; scanning goes on at the index.
    Emit(TokenType, Seq<char>, int),
    Fail(FatalError),
}

/// One step of the longest-match scanner at index `i < s.len()`.
pub open spec fn lex_step(s: Seq<char>, i: int) -> LexStep {
    let c = s[i];
    if single_char_kind(c) is Some {
        LexStep::Emit(single_char_kind(c)->0, seq![c], i + 1)
    } else if c == '"' {
        match string_scan(s, i + 1, Seq::empty()) {
            Ok((text, j)) => LexStep::Emit(TokenType::String, text, j),
            Err(e) => LexStep::Fail(e),
        }
    } else if spec_is_digit(c) {
        let j = number_end(s, i);
        LexStep::Emit(TokenType::Number, s.subrange(i, j), j)
    } else if spec_ident_start(c) {
        let j = ident_end(s, i);
        let w = s.subrange(i, j);
        LexStep::Emit(
            match keyword_kind(w) {
                Some(k) => k,
                None => TokenType::Identifier,
            },
            w,
            j,
        )
    } else if spec_is_skippable(c) {
        LexStep::Skip(i + 1)
    } else {
        LexStep::Fail(FatalError::UnknownCharacter(c))
    }
}

pub open spec fn eof_text() -> Seq<char> {
    seq!['E', 'n', 'd', 'O', 'f', 'F', 'i', 'l', 'e']
}

/// The tokens of `s` from index `i` on, after the tokens `acc` already
/// scanned; the sequence always ends with one end-of-file token.
pub open spec fn lex_from(s: Seq<char>, i: int, acc: Seq<(TokenType, Seq<char>)>) -> Result<
    Seq<(TokenType, Seq<char>)>,
    FatalError,
>
    decreases s.len() - i,
{
    if i < 0 || i >= s.len() {
        Ok(acc.push((TokenType::EOF, eof_text())))
    } else {
        match lex_step(s, i) {
            LexStep::Skip(j) => if i < j <= s.len() {
                lex_from(s, j, acc)
            } else {
                Err(FatalError::UnknownCharacter(s[i]))
            },
            LexStep::Emit(k, t, j) => if i < j <= s.len() {
                lex_from(s, j, acc.push((k, t)))
            } else {
                Err(FatalError::UnknownCharacter(s[i]))
            },
            LexStep::Fail(e) => Err(e),
        }
    }
}

/// The token sequence of a whole source text.
pub open spec fn lex(s: Seq<char>) -> Result<Seq<(TokenType, Seq<char>)>, FatalError> {
    lex_from(s, 0, Seq::empty())
}

pub open spec fn token_views(ts: Seq<Token>) -> Seq<(TokenType, Seq<char>)> {
    ts.map_values(|t: Token| t@)
}

proof fn lemma_lex_from_ends_with_eof(s: Seq<char>, i: int, acc: Seq<(TokenType, Seq<char>)>)
    ensures
        lex_from(s, i, acc) matches Ok(ts) ==> ts.len() > 0 && ts.last() == (
            TokenType::EOF,
            eof_text(),
        ),
    decreases s.len() - i,
{
    if 0 <= i < s.len() {
        match lex_step(s, i) {
            LexStep::Skip(j) => if i < j <= s.len() {
                lemma_lex_from_ends_with_eof(s, j, acc);
            },
            LexStep::Emit(k, t, j) => if i < j <= s.len() {
                lemma_lex_from_ends_with_eof(s, j, acc.push((k, t)));
            },
            LexStep::Fail(_) => {},
        }
    }
}

/// A successful scan ends with the end-of-file token.
pub proof fn lemma_lex_ends_with_eof(s: Seq<char>)
    ensures
        lex(s) matches Ok(ts) ==> ts.len() > 0 && ts.last() == (TokenType::EOF, eof_text()),
{
    lemma_lex_from_ends_with_eof(s, 0, Seq::empty());
}

proof fn lemma_ident_end(s: Seq<char>, i: int)
    requires
        0 <= i <= s.len(),
    ensures
        i <= ident_end(s, i) <= s.len(),
        forall|k: int| i <= k < ident_end(s, i) ==> spec_ident_char(#[trigger] s[k]),
    decreases s.len() - i,
{
    if i < s.len() && spec_ident_char(s[i]) {
        lemma_ident_end(s, i + 1);
    }
}

proof fn lemma_number_end(s: Seq<char>, i: int)
    requires
        0 <= i <= s.len(),
    ensures
        i <= number_end(s, i) <= s.len(),
    decreases s.len() - i,
{
    if i < s.len() && (spec_is_digit(s[i]) || s[i] == '.') {
        lemma_number_end(s, i + 1);
    }
}

proof fn lemma_string_scan_end(s: Seq<char>, i: int, acc: Seq<char>)
    requires
        0 <= i,
    ensures
        string_scan(s, i, acc) matches Ok((_, j)) ==> i < j <= s.len(),
    decreases s.len() - i,
{
    if 0 <= i < s.len() && s[i] != '"' {
        if s[i] == '\\' {
            if i + 1 < s.len() {
                if let Some(c) = escaped_char(s[i + 1]) {
                    lemma_string_scan_end(s, i + 2, acc.push(c));
                }
            }
        } else {
            lemma_string_scan_end(s, i + 1, acc.push(s[i]));
        }
    }
}

/// Converts a source text into its characters.
fn chars_of(source: &str) -> (r: Vec<char>)
    ensures
        r@ == source@,
{
    let n = source.unicode_len();
    let mut out: Vec<char> = Vec::new();
    let mut i: usize = 0;
    while i < n
        invariant
            n == source@.len(),
            i <= n,
            out@ == source@.subrange(0, i as int),
        decreases n - i,
    {
        out.push(source.get_char(i));
        i = i + 1;
        assert(out@ =~= source@.subrange(0, i as int));
    }
    assert(out@ =~= source@);
    out
}

fn string_of(s: &Vec<char>, from: usize, to: usize) -> (r: String)
    requires
        from <= to <= s.len(),
    ensures
        r@ == s@.subrange(from as int, to as int),
{
    let mut out = String::new();
    let mut i = from;
    while i < to
        invariant
            from <= i <= to <= s.len(),
            out@ == s@.subrange(from as int, i as int),
        decreases to - i,
    {
        push_char(&mut out, s[i]);
        i = i + 1;
        assert(out@ =~= s@.subrange(from as int, i as int));
    }
    out
}

pub struct Tokenizer;

impl Tokenizer {
    /// The kind of the reserved word `w`, if it is one.
    pub fn get_keywords(&self, w: &Vec<char>) -> (r: Option<TokenType>)
        ensures
            r == keyword_kind(w@),
    {
        let n = w.len();
        if n == 2 && w[0] == 'i' && w[1] == 'f' {
            assert(w@ =~= seq!['i', 'f']);
            Some(TokenType::If)
        } else if n == 2 && w[0] == 'i' && w[1] == 'n' {
            assert(w@ =~= seq!['i', 'n']);
            Some(TokenType::In)
        } else if n == 3 && w[0] == 'v' && w[1] == 'a' && w[2] == 'r' {
            assert(w@ =~= seq!['v', 'a', 'r']);
            Some(TokenType::Var)
        } else if n == 3 && w[0] == 'f' && w[1] == 'o' && w[2] == 'r' {
            assert(w@ =~= seq!['f', 'o', 'r']);
            Some(TokenType::For)
        } else if n == 4 && w[0] == 'e' && w[1] == 'l' && w[2] == 's' && w[3] == 'e' {
            assert(w@ =~= seq!['e', 'l', 's', 'e']);
            Some(TokenType::Else)
        } else if n == 5 && w[0] == 'c' && w[1] == 'o' && w[2] == 'n' && w[3] == 's' && w[4]
            == 't' {
            assert(w@ =~= seq!['c', 'o', 'n', 's', 't']);
            Some(TokenType::Const)
        } else if n == 5 && w[0] == 'w' && w[1] == 'h' && w[2] == 'i' && w[3] == 'l' && w[4]
            == 'e' {
            assert(w@ =~= seq!['w', 'h', 'i', 'l', 'e']);
            Some(TokenType::While)
        } else if n == 6 && w[0] == 'r' && w[1] == 'e' && w[2] == 't' && w[3] == 'u' && w[4]
            == 'r' && w[5] == 'n' {
            assert(w@ =~= seq!['r', 'e', 't', 'u', 'r', 'n']);
            Some(TokenType::Return)
        } else if n == 8 && w[0] == 'f' && w[1] == 'u' && w[2] == 'n' && w[3] == 'c' && w[4]
            == 't' && w[5] == 'i' && w[6] == 'o' && w[7] == 'n' {
            assert(w@ =~= seq!['f', 'u', 'n', 'c', 't', 'i', 'o', 'n']);
            Some(TokenType::Function)
        } else {
            assert(w@.len() != 2 || w@ != seq!['i', 'f'] && w@ != seq!['i', 'n']) by {
                if w@.len() == 2 && w@ == seq!['i', 'f'] {
                    assert(w@[0] == 'i' && w@[1] == 'f');
                }
                if w@.len() == 2 && w@ == seq!['i', 'n'] {
                    assert(w@[0] == 'i' && w@[1] == 'n');
                }
            }
            assert(w@ != seq!['v', 'a', 'r']) by {
                if w@ == seq!['v', 'a', 'r'] {
                    assert(w@[0] == 'v' && w@[1] == 'a' && w@[2] == 'r');
                }
            }
            assert(w@ != seq!['f', 'o', 'r']) by {
                if w@ == seq!['f', 'o', 'r'] {
                    assert(w@[0] == 'f' && w@[1] == 'o' && w@[2] == 'r');
                }
            }
            assert(w@ != seq!['e', 'l', 's', 'e']) by {
                if w@ == seq!['e', 'l', 's', 'e'] {
                    assert(w@[0] == 'e' && w@[1] == 'l' && w@[2] == 's' && w@[3] == 'e');
                }
            }
            assert(w@ != seq!['c', 'o', 'n', 's', 't']) by {
                if w@ == seq!['c', 'o', 'n', 's', 't'] {
                    assert(w@[0] == 'c' && w@[1] == 'o' && w@[2] == 'n' && w@[3] == 's' && w@[4]
                        == 't');
                }
            }
            assert(w@ != seq!['w', 'h', 'i', 'l', 'e']) by {
                if w@ == seq!['w', 'h', 'i', 'l', 'e'] {
                    assert(w@[0] == 'w' && w@[1] == 'h' && w@[2] == 'i' && w@[3] == 'l' && w@[4]
                        == 'e');
                }
            }
            assert(w@ != seq!['r', 'e', 't', 'u', 'r', 'n']) by {
                if w@ == seq!['r', 'e', 't', 'u', 'r', 'n'] {
                    assert(w@[0] == 'r' && w@[1] == 'e' && w@[2] == 't' && w@[3] == 'u' && w@[4]
                        == 'r' && w@[5] == 'n');
                }
            }
            assert(w@ != seq!['f', 'u', 'n', 'c', 't', 'i', 'o', 'n']) by {
                if w@ == seq!['f', 'u', 'n', 'c', 't', 'i', 'o', 'n'] {
                    assert(w@[0] == 'f' && w@[1] == 'u' && w@[2] == 'n' && w@[3] == 'c' && w@[4]
                        == 't' && w@[5] == 'i' && w@[6] == 'o' && w@[7] == 'n');
                }
            }
            None
        }
    }

    /// The kind of a one-character token.
    fn single_char_token(c: char) -> (r: Option<TokenType>)
        ensures
            r == single_char_kind(c),
    {
        if c == '(' {
            Some(TokenType::OpenParen)
        } else if c == ')' {
            Some(TokenType::CloseParen)
        } else if c == '{' {
            Some(TokenType::OpenBrace)
        } else if c == '}' {
            Some(TokenType::CloseBrace)
        } else if c == '[' {
            Some(TokenType::OpenBracket)
        } else if c == ']' {
            Some(TokenType::CloseBracket)
        } else if c == ',' {
            Some(TokenType::Comma)
        } else if c == '.' {
            Some(TokenType::Dot)
        } else if c == ':' {
            Some(TokenType::Colon)
        } else if c == '+' || c == '-' || c == '*' || c == '/' || c == '%' {
            Some(TokenType::BinaryOperator)
        } else if c == '=' {
            Some(TokenType::Equals)
        } else if c == '<' {
            Some(TokenType::LeftAngleBracket)
        } else if c == '>' {
            Some(TokenType::RightAngleBracket)
        } else if c == '!' {
            Some(TokenType::Bang)
        } else if c == ';' {
            Some(TokenType::Semicolon)
        } else {
            None
        }
    }

    /// Decodes a string literal whose opening quote stands just before
    /// `start`.
    fn scan_string(s: &Vec<char>, start: usize) -> (r: Result<(String, usize), FatalError>)
        requires
            start <= s.len(),
        ensures
            match (r, string_scan(s@, start as int, Seq::empty())) {
                (Ok((text, j)), Ok((t, k))) => text@ == t && j == k,
                (Err(e), Err(f)) => e == f,
                _ => false,
            },
    {
        let mut out = String::new();
        let mut i = start;
        while i < s.len()
            invariant
                start <= i <= s.len(),
                string_scan(s@, i as int, out@) == string_scan(s@, start as int, Seq::empty()),
            decreases s.len() - i,
        {
            let c = s[i];
            if c == '"' {
                return Ok((out, i + 1));
            } else if c == '\\' {
                if i + 1 >= s.len() {
                    return Err(FatalError::UnterminatedString);
                }
                let e = s[i + 1];
                if e == '\\' || e == '"' || e == '\'' {
                    push_char(&mut out, e);
                } else if e == 'n' {
                    push_char(&mut out, '\n');
                } else if e == 't' {
                    push_char(&mut out, '\t');
                } else {
                    return Err(FatalError::InvalidEscape(e));
                }
                i = i + 2;
            } else {
                push_char(&mut out, c);
                i = i + 1;
            }
        }
        Err(FatalError::UnterminatedString)
    }

    /// Splits `source` into tokens, ending with an end-of-file token.
    pub fn tokenize(&self, source: &str) -> (r: Result<Vec<Token>, FatalError>)
        ensures
            match (r, lex(source@)) {
                (Ok(ts), Ok(vs)) => token_views(ts@) == vs && forall|k: int|
                    0 <= k < ts.len() ==> (#[trigger] ts@[k]).value is Some,
                (Err(e), Err(f)) => e == f,
                _ => false,
            },
    {
        let s = chars_of(source);
        let mut out: Vec<Token> = Vec::new();
        let mut i: usize = 0;
        assert(token_views(out@) =~= Seq::empty());
        while i < s.len()
            invariant
                s@ == source@,
                i <= s.len(),
                lex_from(s@, i as int, token_views(out@)) == lex(source@),
                forall|k: int| 0 <= k < out.len() ==> (#[trigger] out@[k]).value is Some,
            decreases s.len() - i,
        {
            let ghost before = token_views(out@);
            let c = s[i];
            let next: usize;
            if let Some(k) = Self::single_char_token(c) {
                let mut text = String::new();
                push_char(&mut text, c);
                out.push(Token::new(k, text));
                next = i + 1;
                assert(text@ =~= seq![c]);
            } else if c == '"' {
                match Self::scan_string(&s, i + 1) {
                    Ok((text, j)) => {
                        proof {
                            lemma_string_scan_end(s@, i + 1, Seq::empty());
                        }
                        out.push(Token::new(TokenType::String, text));
                        next = j;
                    },
                    Err(e) => {
                        return Err(e);
                    },
                }
            } else if is_digit(c) {
                let mut j = i;
                while j < s.len() && (is_digit(s[j]) || s[j] == '.')
                    invariant
                        i <= j <= s.len(),
                        number_end(s@, j as int) == number_end(s@, i as int),
                    decreases s.len() - j,
                {
                    j = j + 1;
                }
                proof {
                    lemma_number_end(s@, i + 1);
                }
                out.push(Token::new(TokenType::Number, string_of(&s, i, j)));
                next = j;
            } else if is_valid_ident_char_start(c) {
                let mut j = i;
                let mut w: Vec<char> = Vec::new();
                while j < s.len() && is_valid_ident_char(s[j])
                    invariant
                        i <= j <= s.len(),
                        ident_end(s@, j as int) == ident_end(s@, i as int),
                        w@ == s@.subrange(i as int, j as int),
                    decreases s.len() - j,
                {
                    w.push(s[j]);
                    j = j + 1;
                    assert(w@ =~= s@.subrange(i as int, j as int));
                }
                proof {
                    lemma_ident_end(s@, i + 1);
                }
                let kind = match self.get_keywords(&w) {
                    Some(k) => k,
                    None => TokenType::Identifier,
                };
                out.push(Token::new(kind, string_of(&s, i, j)));
                next = j;
            } else if is_skippable(c) {
                next = i + 1;
            } else {
                return Err(FatalError::UnknownCharacter(c));
            }
            assert(token_views(out@) =~= match lex_step(s@, i as int) {
                LexStep::Emit(k, t, _) => before.push((k, t)),
                _ => before,
            });
            i = next;
        }
        let mut eof = String::new();
        push_char(&mut eof, 'E');
        push_char(&mut eof, 'n');
        push_char(&mut eof, 'd');
        push_char(&mut eof, 'O');
        push_char(&mut eof, 'f');
        push_char(&mut eof, 'F');
        push_char(&mut eof, 'i');
        push_char(&mut eof, 'l');
        push_char(&mut eof, 'e');
        let ghost before = token_views(out@);
        assert(eof@ =~= eof_text());
        out.push(Token::new(TokenType::EOF, eof));
        assert(token_views(out@) =~= before.push((TokenType::EOF, eof_text())));
        Ok(out)
    }
}

} // verus!
