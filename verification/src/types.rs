//! The types of the script language.
use vstd::prelude::*;

verus! {

/// The type of an expression.
#[derive(Debug)]
pub enum Type {
    String,
    Process,
    Reference(Box<Type>),
    Void,
}

impl PartialEq for Type {
    fn eq(&self, other: &Type) -> (r: bool)
        decreases self,
    {
        match (self, other) {
            (Type::String, Type::String) => true,
            (Type::Process, Type::Process) => true,
            (Type::Reference(a), Type::Reference(b)) => {
                let a: &Type = a;
                let b: &Type = b;
                a.eq(b)
            },
            (Type::Void, Type::Void) => true,
            _ => false,
        }
    }
}

impl vstd::std_specs::cmp::PartialEqSpecImpl for Type {
    open spec fn obeys_eq_spec() -> bool {
        true
    }

    open spec fn eq_spec(&self, other: &Type) -> bool {
        *self == *other
    }
}

impl Eq for Type {

}

impl Clone for Type {
    fn clone(&self) -> (r: Type)
        ensures
            r == *self,
        decreases self,
    {
        match self {
            Type::String => Type::String,
            Type::Process => Type::Process,
            Type::Reference(t) => {
                let inner: &Type = t;
                Type::Reference(Box::new(inner.clone()))
            },
            Type::Void => Type::Void,
        }
    }
}

/// How a type is written in messages: `String`, `Process`, `&T`, `()`.
pub open spec fn type_text(t: Type) -> Seq<char>
    decreases t,
{
    match t {
        Type::String => seq!['S', 't', 'r', 'i', 'n', 'g'],
        Type::Process => seq!['P', 'r', 'o', 'c', 'e', 's', 's'],
        Type::Reference(inner) => seq!['&'] + type_text(*inner),
        Type::Void => seq!['(', ')'],
    }
}

impl Type {
    /// The type as it is written in messages.
    pub fn to_text(&self) -> (s: String)
        ensures
            s@ == type_text(*self),
        decreases self,
    {
        match self {
            Type::String => {
                let s = String::from_str("String");
                proof {
                    reveal_strlit("String");
                }
                s
            },
            Type::Process => {
                let s = String::from_str("Process");
                proof {
                    reveal_strlit("Process");
                }
                s
            },
            Type::Reference(inner) => {
                let mut s = String::from_str("&");
                let inner: &Type = inner;
                let rest = inner.to_text();
                s.append(rest.as_str());
                proof {
                    reveal_strlit("&");
                }
                s
            },
            Type::Void => {
                let s = String::from_str("()");
                proof {
                    reveal_strlit("()");
                }
                s
            },
        }
    }
}

/// A value while tests run. A process is named by the number it was started under.
#[derive(Debug)]
pub enum Value {
    String(String),
    Process(usize),
    Reference(Box<Value>),
    Void,
}

impl Clone for Value {
    fn clone(&self) -> (r: Value)
        ensures
            r == *self,
        decreases self,
    {
        match self {
            Value::String(s) => Value::String(s.clone()),
            Value::Process(p) => Value::Process(*p),
            Value::Reference(v) => {
                let inner: &Value = v;
                Value::Reference(Box::new(inner.clone()))
            },
            Value::Void => Value::Void,
        }
    }
}

} // verus!
