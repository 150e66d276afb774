use vstd::prelude::*;

verus! {

/// An error that stops the whole program: the embedder reports it and
/// aborts.
#[derive(Debug)]
pub enum FatalError {
    /// A character that starts no token.
    UnknownCharacter(char),
    /// A backslash in a string literal followed by this character.
    InvalidEscape(char),
    /// A string literal that reaches the end of the source.
    UnterminatedString,
    /// The parser met a token it cannot use here.
    Syntax(String),
    /// A name that no scope of the chain declares.
    UnresolvedVariable(String),
    /// A second declaration of a name in one scope.
    AlreadyDeclared(String),
    /// An assignment to a constant.
    ConstantReassignment(String),
    /// A `return` evaluated in the root scope.
    ReturnOutsideFunction,
    /// A call with the wrong number of arguments.
    ArityMismatch { expected: usize, found: usize },
    /// A closure whose captured scope is not in the scope chain.
    UnknownScope,
    /// A call of a value that is no function.
    NotCallable,
    /// The left-hand side of an assignment is no identifier or member access.
    InvalidAssignmentTarget,
    /// A member access whose base or property has the wrong kind.
    InvalidMemberExpression,
    /// An object has no property of this name.
    MissingProperty(String),
    /// A list index outside `-1..len`.
    IndexOutOfRange,
    /// `<` or `>` (or their `=` forms) on values that have no order.
    Unordered,
    /// A `for` loop over a value that is no list.
    NotIterable,
    /// A numeric literal, or the text given to `int`, that is no number.
    InvalidNumber(String),
    /// A builtin called with arguments of the wrong kind or count.
    InvalidArgument(String),
    /// The evaluation nested deeper than its budget allows.
    DepthExceeded,
    /// A loop ran more iterations than its budget allows.
    IterationLimit,
}

} // verus!
