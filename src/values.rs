use std::rc::Rc;
use vstd::prelude::*;

use crate::ast::{share, FunctionDeclaration};
use crate::error::FatalError;
use crate::host::Host;
use crate::environment::{bindings_map, has_name, names_unique};
use crate::{pad_each_line, padded_lines};

verus! {

#[derive(Clone, Copy, Debug, PartialEq, Eq, Structural)]
pub enum ValueType {
    Null,
    Number,
    String,
    Boolean,
    Object,
    List,
    NativeFn,
    Function,
}

#[derive(Clone, Copy, Debug, PartialEq, Eq, Structural)]
pub struct BooleanValue {
    pub value: bool,
}

#[derive(Clone, Copy, Debug, PartialEq, Eq, Structural)]
pub struct NullValue {}

/// A number, held as the bit pattern of an IEEE-754 binary64 value; its
/// arithmetic is the host's.
#[derive(Clone, Copy, Debug, PartialEq, Eq, Structural)]
pub struct NumberValue {
    pub bits: u64,
}

#[derive(Debug)]
pub struct StringValue {
    pub value: String,
}

/// A record: names bound to values, kept in insertion order with each name
/// once.
#[derive(Debug)]
pub struct ObjectValue {
    pub properties: Vec<(String, RuntimeValue)>,
}

#[derive(Debug)]
pub struct ListValue {
    pub elements: Vec<RuntimeValue>,
}

/// The builtin functions of the root scope.
#[derive(Clone, Copy, Debug, PartialEq, Eq, Structural)]
pub enum FunctionCall {
    Print,
    Time,
    Sleep,
    Input,
    Exit,
    Str,
    Int,
}

#[derive(Clone, Copy, Debug, PartialEq, Eq, Structural)]
pub struct NativeFnValue {
    pub call: FunctionCall,
}

/// A closure: a declaration and the scope it was declared in.
#[derive(Debug)]
pub struct FunctionValue {
    pub declaration: Rc<FunctionDeclaration>,
    pub declaration_env: usize,
}

/// A runtime value. Records and lists are shared, never changed in place: a
/// change builds a new one.
#[derive(Debug)]
pub enum RuntimeValue {
    Null(NullValue),
    Boolean(BooleanValue),
    Number(NumberValue),
    String(StringValue),
    Object(Rc<ObjectValue>),
    List(Rc<ListValue>),
    NativeFn(NativeFnValue),
    Function(FunctionValue),
}

impl ValueType {
    /// The name of the type, as error messages show it.
    pub fn name(&self) -> (r: String)
        ensures
            r@ == match *self {
                ValueType::Null => "null"@,
                ValueType::Number => "number"@,
                ValueType::String => "string"@,
                ValueType::Boolean => "bool"@,
                ValueType::Object => "object"@,
                ValueType::List => "list"@,
                ValueType::NativeFn => "native_func"@,
                ValueType::Function => "function"@,
            },
    {
        match self {
            ValueType::Null => String::from_str("null"),
            ValueType::Number => String::from_str("number"),
            ValueType::String => String::from_str("string"),
            ValueType::Boolean => String::from_str("bool"),
            ValueType::Object => String::from_str("object"),
            ValueType::List => String::from_str("list"),
            ValueType::NativeFn => String::from_str("native_func"),
            ValueType::Function => String::from_str("function"),
        }
    }
}

pub open spec fn value_type(v: RuntimeValue) -> ValueType {
    match v {
        RuntimeValue::Null(_) => ValueType::Null,
        RuntimeValue::Boolean(_) => ValueType::Boolean,
        RuntimeValue::Number(_) => ValueType::Number,
        RuntimeValue::String(_) => ValueType::String,
        RuntimeValue::Object(_) => ValueType::Object,
        RuntimeValue::List(_) => ValueType::List,
        RuntimeValue::NativeFn(_) => ValueType::NativeFn,
        RuntimeValue::Function(_) => ValueType::Function,
    }
}

/// Truthiness of a value other than a number.
pub open spec fn truthy(v: RuntimeValue) -> bool {
    match v {
        RuntimeValue::Null(_) => false,
        RuntimeValue::Boolean(b) => b.value,
        RuntimeValue::String(s) => s.value@.len() != 0,
        RuntimeValue::Object(o) => o.properties@.len() != 0,
        RuntimeValue::List(l) => l.elements@.len() != 0,
        _ => true,
    }
}

/// Whether a value holds no number anywhere inside it.
pub open spec fn numberless(v: RuntimeValue) -> bool
    decreases v, 0nat,
{
    match v {
        RuntimeValue::Number(_) => false,
        RuntimeValue::Object(o) => props_numberless(o.properties@, o.properties@.len()),
        RuntimeValue::List(l) => elems_numberless(l.elements@, l.elements@.len()),
        _ => true,
    }
}

pub open spec fn props_numberless(ps: Seq<(String, RuntimeValue)>, n: nat) -> bool
    decreases ps, n,
{
    if n == 0 || n > ps.len() {
        true
    } else {
        props_numberless(ps, (n - 1) as nat) && numberless(ps[n - 1].1)
    }
}

pub open spec fn elems_numberless(es: Seq<RuntimeValue>, n: nat) -> bool
    decreases es, n,
{
    if n == 0 || n > es.len() {
        true
    } else {
        elems_numberless(es, (n - 1) as nat) && numberless(es[n - 1])
    }
}

/// The text of a value; a number, whose text the host gives, renders here as
/// nothing (the contracts that use this speak of number-free values).
pub open spec fn render(v: RuntimeValue) -> Seq<char>
    decreases v, 0nat,
{
    match v {
        RuntimeValue::Null(_) => "null"@,
        RuntimeValue::Boolean(b) => if b.value {
            "true"@
        } else {
            "false"@
        },
        RuntimeValue::Number(_) => Seq::empty(),
        RuntimeValue::String(s) => s.value@,
        RuntimeValue::Object(o) => "{\n"@ + render_props(o.properties@, o.properties@.len())
            + "}"@,
        RuntimeValue::List(l) => "["@ + render_elems(l.elements@, l.elements@.len()) + "]"@,
        RuntimeValue::NativeFn(_) => "NativeFn"@,
        RuntimeValue::Function(f) => f.declaration.name@,
    }
}

/// Each of the first `n` properties as `key: value` indented by four
/// spaces, each followed by a line break.
pub open spec fn render_props(ps: Seq<(String, RuntimeValue)>, n: nat) -> Seq<char>
    decreases ps, n,
{
    if n == 0 || n > ps.len() {
        Seq::empty()
    } else {
        render_props(ps, (n - 1) as nat) + padded_lines(
            4,
            ps[n - 1].0@ + ": "@ + render(ps[n - 1].1),
        ) + "\n"@
    }
}

/// The first `n` elements, separated by `, `.
pub open spec fn render_elems(es: Seq<RuntimeValue>, n: nat) -> Seq<char>
    decreases es, n,
{
    if n == 0 || n > es.len() {
        Seq::empty()
    } else if n == 1 {
        render(es[0])
    } else {
        render_elems(es, (n - 1) as nat) + ", "@ + render(es[n - 1])
    }
}

impl RuntimeValue {
    pub fn get_type(&self) -> (r: ValueType)
        ensures
            r == value_type(*self),
    {
        match self {
            RuntimeValue::Null(_) => ValueType::Null,
            RuntimeValue::Boolean(_) => ValueType::Boolean,
            RuntimeValue::Number(_) => ValueType::Number,
            RuntimeValue::String(_) => ValueType::String,
            RuntimeValue::Object(_) => ValueType::Object,
            RuntimeValue::List(_) => ValueType::List,
            RuntimeValue::NativeFn(_) => ValueType::NativeFn,
            RuntimeValue::Function(_) => ValueType::Function,
        }
    }

    /// The same value; records, lists and closures are shared, not copied.
    pub fn clone_self(&self) -> (r: RuntimeValue)
        ensures
            r == *self,
    {
        match self {
            RuntimeValue::Null(n) => RuntimeValue::Null(*n),
            RuntimeValue::Boolean(b) => RuntimeValue::Boolean(*b),
            RuntimeValue::Number(n) => RuntimeValue::Number(*n),
            RuntimeValue::String(s) => RuntimeValue::String(StringValue { value: s.value.clone() }),
            RuntimeValue::Object(o) => RuntimeValue::Object(share(o)),
            RuntimeValue::List(l) => RuntimeValue::List(share(l)),
            RuntimeValue::NativeFn(f) => RuntimeValue::NativeFn(*f),
            RuntimeValue::Function(f) => RuntimeValue::Function(
                FunctionValue {
                    declaration: share(&f.declaration),
                    declaration_env: f.declaration_env,
                },
            ),
        }
    }

    /// Truthiness: null, false, zero, the empty string, the empty record
    /// and the empty list are false; everything else is true.
    pub fn as_bool<H: Host>(&self, host: &H) -> (r: bool)
        ensures
            !(*self is Number) ==> r == truthy(*self),
    {
        match self {
            RuntimeValue::Null(_) => false,
            RuntimeValue::Boolean(b) => b.value,
            RuntimeValue::Number(n) => !host.number_is_zero(*n),
            RuntimeValue::String(s) => s.value.as_str().unicode_len() != 0,
            RuntimeValue::Object(o) => o.properties.len() != 0,
            RuntimeValue::List(l) => l.elements.len() != 0,
            RuntimeValue::NativeFn(_) => true,
            RuntimeValue::Function(_) => true,
        }
    }

    /// The text of a value, as `print` and `str` show it.
    pub fn to_string<H: Host>(&self, host: &H) -> (r: String)
        ensures
            numberless(*self) ==> r@ == render(*self),
        decreases self,
    {
        match self {
            RuntimeValue::Null(_) => String::from_str("null"),
            RuntimeValue::Boolean(b) => if b.value {
                String::from_str("true")
            } else {
                String::from_str("false")
            },
            RuntimeValue::Number(n) => host.number_text(*n),
            RuntimeValue::String(s) => s.value.clone(),
            RuntimeValue::Object(o) => {
                let ps = &o.properties;
                let mut out = String::from_str("{\n");
                let mut i: usize = 0;
                while i < ps.len()
                    invariant
                        i <= ps.len(),
                        *self == RuntimeValue::Object(*o),
                        ps == o.properties,
                        props_numberless(ps@, ps@.len()) ==> out@ == "{\n"@ + render_props(
                            ps@,
                            i as nat,
                        ),
                    decreases ps.len() - i,
                {
                    proof {
                        lemma_props_numberless_prefix(ps@, ps@.len(), (i + 1) as nat);
                    }
                    let mut line = ps[i].0.clone();
                    line.append(": ");
                    proof {
                        assert(decreases_to!(*self => self->Object_0));
                        assert(decreases_to!(self->Object_0 => self->Object_0.properties));
                        assert(decreases_to!(o.properties => ps@));
                        vstd::seq::axiom_seq_index_decreases(ps@, i as int);
                        assert(decreases_to!(ps@[i as int] => ps@[i as int].1));
                        assert(decreases_to!(*self => ps@[i as int].1));
                    }
                    let v = ps[i].1.to_string(host);
                    line.append(v.as_str());
                    let padded = pad_each_line(4, line);
                    out.append(padded.as_str());
                    out.append("\n");
                    i = i + 1;
                }
                out.append("}");
                out
            },
            RuntimeValue::List(l) => {
                let es = &l.elements;
                let mut out = String::from_str("[");
                let mut i: usize = 0;
                while i < es.len()
                    invariant
                        i <= es.len(),
                        *self == RuntimeValue::List(*l),
                        es == l.elements,
                        elems_numberless(es@, es@.len()) ==> out@ == "["@ + render_elems(
                            es@,
                            i as nat,
                        ),
                    decreases es.len() - i,
                {
                    proof {
                        lemma_elems_numberless_prefix(es@, es@.len(), (i + 1) as nat);
                    }
                    if i > 0 {
                        out.append(", ");
                    }
                    proof {
                        assert(decreases_to!(*self => self->List_0));
                        assert(decreases_to!(self->List_0 => self->List_0.elements));
                        assert(decreases_to!(l.elements => es@));
                        vstd::seq::axiom_seq_index_decreases(es@, i as int);
                        assert(decreases_to!(*self => es@[i as int]));
                    }
                    let v = es[i].to_string(host);
                    out.append(v.as_str());
                    i = i + 1;
                }
                out.append("]");
                out
            },
            RuntimeValue::NativeFn(_) => String::from_str("NativeFn"),
            RuntimeValue::Function(f) => f.declaration.name.clone(),
        }
    }
}

impl RuntimeValue {
    /// Equality of two values of one type: null equals null; booleans,
    /// numbers and strings compare by value; records and lists by their
    /// size and then their text; builtins by identity; closures by the
    /// scope they captured. Values of different types are never equal.
    pub fn equals<H: Host>(&self, host: &H, other: &RuntimeValue) -> (r: bool)
        ensures
            value_type(*self) != value_type(*other) ==> !r,
            match (*self, *other) {
                (RuntimeValue::Null(_), RuntimeValue::Null(_)) => r,
                (RuntimeValue::Boolean(a), RuntimeValue::Boolean(b)) => r == (a.value == b.value),
                (RuntimeValue::String(a), RuntimeValue::String(b)) => r == (a.value@ == b.value@),
                (RuntimeValue::Object(a), RuntimeValue::Object(b)) => numberless(*self)
                    && numberless(*other) ==> r == (a.properties@.len() == b.properties@.len()
                    && render(*self) == render(*other)),
                (RuntimeValue::List(a), RuntimeValue::List(b)) => numberless(*self) && numberless(
                    *other,
                ) ==> r == (a.elements@.len() == b.elements@.len() && render(*self) == render(
                    *other,
                )),
                (RuntimeValue::NativeFn(a), RuntimeValue::NativeFn(b)) => r == (a.call == b.call),
                (RuntimeValue::Function(a), RuntimeValue::Function(b)) => r == (a.declaration_env
                    == b.declaration_env),
                _ => true,
            },
    {
        match (self, other) {
            (RuntimeValue::Null(_), RuntimeValue::Null(_)) => true,
            (RuntimeValue::Boolean(a), RuntimeValue::Boolean(b)) => a.value == b.value,
            (RuntimeValue::Number(a), RuntimeValue::Number(b)) => host.number_equals(*a, *b),
            (RuntimeValue::String(a), RuntimeValue::String(b)) => a.value == b.value,
            (RuntimeValue::Object(a), RuntimeValue::Object(b)) => {
                if a.properties.len() != b.properties.len() {
                    return false;
                }
                let left = self.to_string(host);
                let right = other.to_string(host);
                left == right
            },
            (RuntimeValue::List(a), RuntimeValue::List(b)) => {
                if a.elements.len() != b.elements.len() {
                    return false;
                }
                let left = self.to_string(host);
                let right = other.to_string(host);
                left == right
            },
            (RuntimeValue::NativeFn(a), RuntimeValue::NativeFn(b)) => a.call == b.call,
            (RuntimeValue::Function(a), RuntimeValue::Function(b)) => a.declaration_env
                == b.declaration_env,
            _ => false,
        }
    }

    /// `self < other`; only numbers are ordered.
    pub fn less_than<H: Host>(&self, host: &H, other: &RuntimeValue) -> (r: Result<bool, FatalError>)
        ensures
            r is Ok <==> (*self is Number && *other is Number),
            r is Err ==> r == Err::<bool, FatalError>(FatalError::Unordered),
    {
        match (self, other) {
            (RuntimeValue::Number(a), RuntimeValue::Number(b)) => Ok(host.number_less(*a, *b)),
            _ => Err(FatalError::Unordered),
        }
    }

    /// `self > other`; only numbers are ordered.
    pub fn greater_than<H: Host>(&self, host: &H, other: &RuntimeValue) -> (r: Result<bool, FatalError>)
        ensures
            r is Ok <==> (*self is Number && *other is Number),
            r is Err ==> r == Err::<bool, FatalError>(FatalError::Unordered),
    {
        match (self, other) {
            (RuntimeValue::Number(a), RuntimeValue::Number(b)) => Ok(host.number_less(*b, *a)),
            _ => Err(FatalError::Unordered),
        }
    }
}

impl ObjectValue {
    /// The value of the first property named `key`.
    pub fn get(&self, key: &String) -> (r: Option<&RuntimeValue>)
        ensures
            r is Some <==> has_name(self.properties@, key@),
            r matches Some(v) ==> exists|i: int|
                0 <= i < self.properties@.len() && (#[trigger] self.properties@[i]).0@ == key@
                    && self.properties@[i].1 == *v,
            names_unique(self.properties@) && r is Some ==> *r->0 == bindings_map(
                self.properties@,
            )[key@],
    {
        let mut i: usize = 0;
        while i < self.properties.len()
            invariant
                i <= self.properties.len(),
                forall|k: int| 0 <= k < i ==> (#[trigger] self.properties@[k]).0@ != key@,
            decreases self.properties.len() - i,
        {
            if self.properties[i].0 == *key {
                proof {
                    if names_unique(self.properties@) {
                        crate::environment::lemma_value_at(self.properties@, i as int);
                    }
                }
                return Some(&self.properties[i].1);
            }
            i = i + 1;
        }
        None
    }

    /// A copy of this record with `key` bound to `value`: a property of
    /// that name is replaced in place, else one is added at the end.
    pub fn with_property(&self, key: String, value: RuntimeValue) -> (r: ObjectValue)
        ensures
            names_unique(self.properties@) ==> names_unique(r.properties@) && bindings_map(
                r.properties@,
            ) == bindings_map(self.properties@).insert(key@, value),
            has_name(self.properties@, key@) ==> r.properties@.len() == self.properties@.len(),
            !has_name(self.properties@, key@) ==> r.properties@ == self.properties@.push(
                (key, value),
            ),
    {
        let ps = &self.properties;
        let mut out: Vec<(String, RuntimeValue)> = Vec::new();
        let mut found: Option<usize> = None;
        let mut i: usize = 0;
        while i < ps.len()
            invariant
                i <= ps.len(),
                out@ == ps@.subrange(0, i as int),
                found is None ==> forall|k: int| 0 <= k < i ==> (#[trigger] ps@[k]).0@ != key@,
                found matches Some(f) ==> f < i && ps@[f as int].0@ == key@,
            decreases ps.len() - i,
        {
            if found.is_none() && ps[i].0 == key {
                found = Some(i);
            }
            out.push((ps[i].0.clone(), ps[i].1.clone_self()));
            i = i + 1;
            assert(out@ =~= ps@.subrange(0, i as int));
        }
        assert(out@ =~= ps@);
        match found {
            Some(f) => {
                let slot = &mut out[f];
                proof {
                    if names_unique(ps@) {
                        crate::environment::lemma_set_binding(ps@, f as int, value);
                    }
                }
                slot.1 = value;
                assert(out@ =~= ps@.update(f as int, (ps@[f as int].0, value)));
            },
            None => {
                proof {
                    if names_unique(ps@) {
                        crate::environment::lemma_push_binding(ps@, key, value);
                    }
                }
                out.push((key, value));
            },
        }
        ObjectValue { properties: out }
    }
}

/// The element that a list index denotes: `0..len`, or `-1` for the last.
pub open spec fn index_target(len: int, index: int) -> Option<int> {
    if 0 <= index < len {
        Some(index)
    } else if index == -1 && len > 0 {
        Some(len - 1)
    } else {
        None
    }
}

impl ListValue {
    /// The element at `index`; `-1` is the last element, and any other
    /// index outside `0..len` is a fatal error.
    pub fn index(&self, index: i64) -> (r: Result<RuntimeValue, FatalError>)
        ensures
            match index_target(self.elements@.len() as int, index as int) {
                Some(k) => r == Ok::<RuntimeValue, FatalError>(self.elements@[k]),
                None => r == Err::<RuntimeValue, FatalError>(FatalError::IndexOutOfRange),
            },
    {
        let n = self.elements.len();
        if index >= 0 && (index as u64) < (n as u64) {
            Ok(self.elements[index as usize].clone_self())
        } else if index == -1 && n > 0 {
            Ok(self.elements[n - 1].clone_self())
        } else {
            Err(FatalError::IndexOutOfRange)
        }
    }
}

proof fn lemma_props_numberless_prefix(ps: Seq<(String, RuntimeValue)>, n: nat, m: nat)
    requires
        m <= n <= ps.len(),
    ensures
        props_numberless(ps, n) ==> props_numberless(ps, m) && (m > 0 ==> numberless(
            ps[m - 1].1,
        )),
    decreases n,
{
    if n > m {
        lemma_props_numberless_prefix(ps, (n - 1) as nat, m);
    }
}

proof fn lemma_elems_numberless_prefix(es: Seq<RuntimeValue>, n: nat, m: nat)
    requires
        m <= n <= es.len(),
    ensures
        elems_numberless(es, n) ==> elems_numberless(es, m) && (m > 0 ==> numberless(
            es[m - 1],
        )),
    decreases n,
{
    if n > m {
        lemma_elems_numberless_prefix(es, (n - 1) as nat, m);
    }
}

} // verus!
