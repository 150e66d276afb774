use vstd::prelude::*;

use crate::error::FatalError;
use crate::host::Host;
use crate::values::{
    numberless, render, FunctionCall, NullValue, NumberValue, RuntimeValue, StringValue,
};
use crate::push_char;

verus! {

/// The texts of the first `n` arguments, separated by single spaces.
pub open spec fn joined_renders(args: Seq<RuntimeValue>, n: nat) -> Seq<char>
    decreases n,
{
    if n == 0 || n > args.len() {
        Seq::empty()
    } else if n == 1 {
        render(args[0])
    } else {
        joined_renders(args, (n - 1) as nat) + seq![' '] + render(args[n - 1])
    }
}

pub open spec fn all_numberless(args: Seq<RuntimeValue>) -> bool {
    forall|i: int| 0 <= i < args.len() ==> numberless(#[trigger] args[i])
}

/// `s` without one final line break (`\n` or `\r\n`).
pub open spec fn without_line_break(s: Seq<char>) -> Seq<char> {
    if s.len() > 0 && s.last() == '\n' {
        let t = s.drop_last();
        if t.len() > 0 && t.last() == '\r' {
            t.drop_last()
        } else {
            t
        }
    } else {
        s
    }
}

fn null() -> (r: RuntimeValue)
    ensures
        r == RuntimeValue::Null(NullValue {  }),
{
    RuntimeValue::Null(NullValue {  })
}

/// The line that `print` writes: the arguments' texts joined by spaces,
/// then a line break.
pub fn print_line<H: Host>(host: &H, args: &Vec<RuntimeValue>) -> (r: String)
    ensures
        all_numberless(args@) ==> r@ == joined_renders(args@, args@.len()) + seq!['\n'],
{
    let mut out = String::new();
    let mut i: usize = 0;
    while i < args.len()
        invariant
            i <= args.len(),
            all_numberless(args@) ==> out@ == joined_renders(args@, i as nat),
        decreases args.len() - i,
    {
        if i > 0 {
            push_char(&mut out, ' ');
        }
        let text = args[i].to_string(host);
        out.append(text.as_str());
        i = i + 1;
    }
    push_char(&mut out, '\n');
    out
}

/// `print(...)`: writes the arguments' texts and returns null.
pub fn native_print<H: Host>(host: &mut H, args: &Vec<RuntimeValue>) -> (r: Result<
    RuntimeValue,
    FatalError,
>)
    ensures
        r == Ok::<RuntimeValue, FatalError>(RuntimeValue::Null(NullValue {  })),
{
    let line = print_line(host, args);
    host.write(line.as_str());
    Ok(null())
}

/// `time()`: seconds since the Unix epoch.
pub fn native_time<H: Host>(host: &mut H, args: &Vec<RuntimeValue>) -> (r: Result<
    RuntimeValue,
    FatalError,
>)
    ensures
        r matches Ok(RuntimeValue::Number(_)),
{
    Ok(RuntimeValue::Number(host.now()))
}

/// `sleep(seconds)`: blocks, then returns null; one number argument.
pub fn native_sleep<H: Host>(host: &mut H, args: &Vec<RuntimeValue>) -> (r: Result<
    RuntimeValue,
    FatalError,
>)
    ensures
        (args@.len() == 1 && args@[0] is Number) ==> r == Ok::<RuntimeValue, FatalError>(
            RuntimeValue::Null(NullValue {  }),
        ),
        !(args@.len() == 1 && args@[0] is Number) ==> r matches Err(
            FatalError::InvalidArgument(_),
        ),
{
    if args.len() != 1 {
        return Err(FatalError::InvalidArgument(String::from_str("sleep expects 1 argument")));
    }
    match &args[0] {
        RuntimeValue::Number(n) => {
            host.sleep(*n);
            Ok(null())
        },
        _ => Err(FatalError::InvalidArgument(String::from_str("sleep expects a number"))),
    }
}

/// Drops one final line break from a line read from the input.
pub fn strip_line_break(s: String) -> (r: String)
    ensures
        r@ == without_line_break(s@),
{
    let v: &str = s.as_str();
    let n = v.unicode_len();
    if n > 0 && v.get_char(n - 1) == '\n' {
        let end = if n > 1 && v.get_char(n - 2) == '\r' {
            n - 2
        } else {
            n - 1
        };
        let t = v.substring_char(0, end);
        let r = String::from_str(t);
        assert(r@ =~= without_line_break(s@));
        r
    } else {
        s
    }
}

/// `input(prompt?)`: writes the prompt if it is a string, reads a line and
/// returns it without its line break.
pub fn native_input<H: Host>(host: &mut H, args: &Vec<RuntimeValue>) -> (r: Result<
    RuntimeValue,
    FatalError,
>)
    ensures
        args@.len() <= 1 ==> r matches Ok(RuntimeValue::String(_)),
        args@.len() > 1 ==> r matches Err(FatalError::InvalidArgument(_)),
{
    if args.len() > 1 {
        return Err(FatalError::InvalidArgument(String::from_str("input expects at most 1 argument")));
    }
    if args.len() == 1 {
        if let RuntimeValue::String(prompt) = &args[0] {
            host.write(prompt.value.as_str());
        }
    }
    let line = host.read_line();
    Ok(RuntimeValue::String(StringValue { value: strip_line_break(line) }))
}

/// `exit(code?)`: ends the process with the code, or 0.
pub fn native_exit<H: Host>(host: &mut H, args: &Vec<RuntimeValue>) -> (r: Result<
    RuntimeValue,
    FatalError,
>)
    ensures
        (args@.len() == 1 && !(args@[0] is Number)) <==> r is Err,
{
    if args.len() == 1 {
        match &args[0] {
            RuntimeValue::Number(n) => host.exit(*n),
            _ => {
                return Err(FatalError::InvalidArgument(String::from_str("exit expects a number")));
            },
        }
    } else {
        host.exit(NumberValue { bits: 0 });
    }
    Ok(null())
}

/// `str(value)`: the text of one value.
pub fn to_string<H: Host>(host: &mut H, args: &Vec<RuntimeValue>) -> (r: Result<
    RuntimeValue,
    FatalError,
>)
    ensures
        args@.len() != 1 <==> r is Err,
        args@.len() == 1 ==> r matches Ok(RuntimeValue::String(_)),
        args@.len() == 1 && numberless(args@[0]) ==> (r matches Ok(RuntimeValue::String(s))
            && s.value@ == render(args@[0])),
{
    if args.len() != 1 {
        return Err(FatalError::InvalidArgument(String::from_str("str expects 1 argument")));
    }
    let text = args[0].to_string(host);
    Ok(RuntimeValue::String(StringValue { value: text }))
}

/// `int(value)`: a number stays as it is, a string is read as a number;
/// anything else, or a string that is no number, is a fatal error.
pub fn to_int<H: Host>(host: &mut H, args: &Vec<RuntimeValue>) -> (r: Result<
    RuntimeValue,
    FatalError,
>)
    ensures
        args@.len() != 1 ==> r matches Err(FatalError::InvalidArgument(_)),
        args@.len() == 1 && args@[0] is Number ==> r == Ok::<RuntimeValue, FatalError>(
            args@[0],
        ),
        args@.len() == 1 && args@[0] is String ==> (r matches Ok(RuntimeValue::Number(_)) || r
            matches Err(FatalError::InvalidNumber(_))),
        args@.len() == 1 && !(args@[0] is String) && !(args@[0] is Number) ==> r matches Err(
            FatalError::InvalidArgument(_),
        ),
{
    if args.len() != 1 {
        return Err(FatalError::InvalidArgument(String::from_str("int expects 1 argument")));
    }
    match &args[0] {
        RuntimeValue::Number(n) => Ok(RuntimeValue::Number(*n)),
        RuntimeValue::String(s) => match host.parse_number(s.value.as_str()) {
            Some(n) => Ok(RuntimeValue::Number(n)),
            None => Err(FatalError::InvalidNumber(s.value.clone())),
        },
        _ => Err(FatalError::InvalidArgument(String::from_str("Cannot convert to number"))),
    }
}

/// Calls a builtin with evaluated arguments.
pub fn call_native<H: Host>(host: &mut H, call: FunctionCall, args: &Vec<RuntimeValue>) -> (r:
    Result<RuntimeValue, FatalError>)
    ensures
        call == FunctionCall::Print ==> r == Ok::<RuntimeValue, FatalError>(
            RuntimeValue::Null(NullValue {  }),
        ),
        call == FunctionCall::Time ==> r matches Ok(RuntimeValue::Number(_)),
        call == FunctionCall::Sleep ==> ((args@.len() == 1 && args@[0] is Number) <==> r is Ok)
            && (r is Ok ==> r == Ok::<RuntimeValue, FatalError>(
            RuntimeValue::Null(NullValue {  }),
        )),
        call == FunctionCall::Input ==> (args@.len() <= 1 <==> r is Ok) && (r is Ok ==> r->Ok_0 is String),
        call == FunctionCall::Exit ==> ((args@.len() == 1 && !(args@[0] is Number)) <==> r is Err),
        call == FunctionCall::Str ==> (args@.len() == 1 <==> r is Ok) && (r is Ok ==> r->Ok_0 is String)
            && (args@.len() == 1 && numberless(args@[0]) ==> (r matches Ok(RuntimeValue::String(s))
            && s.value@ == render(args@[0]))),
        call == FunctionCall::Int ==> (args@.len() == 1 && args@[0] is Number ==> r
            == Ok::<RuntimeValue, FatalError>(args@[0])) && (args@.len() == 1 && args@[0] is String
            ==> (r matches Ok(RuntimeValue::Number(_)) || r matches Err(
            FatalError::InvalidNumber(_),
        ))) && (!(args@.len() == 1 && (args@[0] is String || args@[0] is Number)) ==> r matches Err(
            FatalError::InvalidArgument(_),
        )),
{
    match call {
        FunctionCall::Print => native_print(host, args),
        FunctionCall::Time => native_time(host, args),
        FunctionCall::Sleep => native_sleep(host, args),
        FunctionCall::Input => native_input(host, args),
        FunctionCall::Exit => native_exit(host, args),
        FunctionCall::Str => to_string(host, args),
        FunctionCall::Int => to_int(host, args),
    }
}

} // verus!
