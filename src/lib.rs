//! A small dynamically typed scripting language: tokenizer, parser,
//! scope chain, value model and tree-walking evaluator.
//!
//! - `lexer`: source text to tokens, specified by `lex`.
//! - `grammar`: the grammar as spec functions over tokens; `parser`
//!   computes exactly what it gives.
//! - `ast`: the syntax tree and its mathematical form.
//! - `values`, `environment`: runtime values and the scope chain (an arena
//!   of scopes, each naming its parent by index).
//! - `interpreter`, `natives`: evaluation and the builtins, over a `Host`
//!   that supplies number arithmetic and input/output. Evaluation is
//!   specified as a big-step relation (`expr_rel`, `stmt_rel`, `block_rel`,
//!   `closure_rel`, with traces of the intermediate states) that leaves
//!   only the host's answers open; every `eval_*` function ensures it.
use vstd::prelude::*;

pub mod ast;
pub mod environment;
pub mod error;
pub mod grammar;
pub mod host;
pub mod interpreter;
pub mod lexer;
pub mod natives;
pub mod parser;
pub mod values;

verus! {

/// Severity with which the parser reports a missing token.
pub enum LoggingLevel {
    Info,
    Warn,
    Error,
    Fatal,
}

pub open spec fn spec_is_skippable(c: char) -> bool {
    c == ' ' || c == '\n' || c == '\t' || c == '\r'
}

pub open spec fn spec_is_alpha(c: char) -> bool {
    ('a' <= c && c <= 'z') || ('A' <= c && c <= 'Z')
}

pub open spec fn spec_is_digit(c: char) -> bool {
    '0' <= c && c <= '9'
}

pub open spec fn spec_ident_start(c: char) -> bool {
    spec_is_alpha(c) || c == '_'
}

pub open spec fn spec_ident_char(c: char) -> bool {
    spec_is_alpha(c) || spec_is_digit(c) || c == '_'
}

/// Whitespace between tokens.
pub fn is_skippable(src: char) -> (r: bool)
    ensures
        r == spec_is_skippable(src),
{
    src == ' ' || src == '\n' || src == '\t' || src == '\r'
}

pub fn is_digit(src: char) -> (r: bool)
    ensures
        r == spec_is_digit(src),
{
    '0' <= src && src <= '9'
}

/// An identifier starts with an ASCII letter or an underscore.
pub fn is_valid_ident_char_start(src: char) -> (r: bool)
    ensures
        r == spec_ident_start(src),
{
    ('a' <= src && src <= 'z') || ('A' <= src && src <= 'Z') || src == '_'
}

/// An identifier continues with ASCII letters, digits or underscores.
pub fn is_valid_ident_char(src: char) -> (r: bool)
    ensures
        r == spec_ident_char(src),
{
    is_valid_ident_char_start(src) || is_digit(src)
}

/// Whether two texts are equal.
pub fn str_eq(a: &str, b: &str) -> (r: bool)
    ensures
        r == (a@ == b@),
{
    let n = a.unicode_len();
    if n != b.unicode_len() {
        return false;
    }
    let mut i: usize = 0;
    while i < n
        invariant
            n == a@.len(),
            n == b@.len(),
            i <= n,
            forall|k: int| 0 <= k < i ==> a@[k] == b@[k],
        decreases n - i,
    {
        if a.get_char(i) != b.get_char(i) {
            return false;
        }
        i = i + 1;
    }
    assert(a@ =~= b@);
    true
}

/// Relies on String::push: appends one character.
#[verifier::external_body]
pub(crate) fn push_char(s: &mut String, c: char)
    ensures
        final(s)@ == old(s)@.push(c),
{
    s.push(c)
}

pub open spec fn spaces(n: nat) -> Seq<char> {
    Seq::new(n, |i: int| ' ')
}

/// Every character of `s`, with `n` spaces after each line break.
pub open spec fn pad_breaks(n: nat, s: Seq<char>) -> Seq<char>
    decreases s.len(),
{
    if s.len() == 0 {
        Seq::empty()
    } else {
        pad_breaks(n, s.drop_last()) + if s.last() == '\n' {
            seq!['\n'] + spaces(n)
        } else {
            seq![s.last()]
        }
    }
}

/// The lines of `s` (a final line break ends the last line and opens no
/// new one), each indented by `n` spaces, joined by line breaks.
pub open spec fn padded_lines(n: nat, s: Seq<char>) -> Seq<char> {
    if s.len() == 0 {
        Seq::empty()
    } else if s.last() == '\n' {
        spaces(n) + pad_breaks(n, s.drop_last())
    } else {
        spaces(n) + pad_breaks(n, s)
    }
}

fn push_spaces(out: &mut String, amount: usize)
    ensures
        final(out)@ == old(out)@ + spaces(amount as nat),
{
    let mut k: usize = 0;
    while k < amount
        invariant
            k <= amount,
            out@ == old(out)@ + spaces(k as nat),
        decreases amount - k,
    {
        push_char(out, ' ');
        k = k + 1;
        assert(out@ =~= old(out)@ + spaces(k as nat));
    }
}

/// Indents each line of `string` by `amount` spaces.
pub fn pad_each_line(amount: usize, string: String) -> (r: String)
    ensures
        r@ == padded_lines(amount as nat, string@),
{
    let s: &str = string.as_str();
    let n: usize = s.unicode_len();
    let mut out = String::new();
    if n == 0 {
        return out;
    }
    let end: usize = if s.get_char(n - 1) == '\n' {
        n - 1
    } else {
        n
    };
    push_spaces(&mut out, amount);
    let mut i: usize = 0;
    while i < end
        invariant
            end <= n,
            n == s@.len(),
            s@ == string@,
            i <= end,
            out@ == spaces(amount as nat) + pad_breaks(amount as nat, s@.subrange(0, i as int)),
        decreases end - i,
    {
        let c = s.get_char(i);
        let ghost before = out@;
        if c == '\n' {
            push_char(&mut out, '\n');
            push_spaces(&mut out, amount);
        } else {
            push_char(&mut out, c);
        }
        assert(s@.subrange(0, i + 1).drop_last() =~= s@.subrange(0, i as int));
        i = i + 1;
        assert(out@ =~= spaces(amount as nat) + pad_breaks(amount as nat, s@.subrange(0, i as int)));
    }
    assert(s@.subrange(0, end as int) =~= if end == n { s@ } else { s@.drop_last() });
    out
}

} // verus!
