//! Names and error kinds of the interpreter's public interface.

use vstd::prelude::*;

verus! {

/// The kinds of dynamic values, without the values.
#[derive(Debug, Copy, Clone, PartialEq, Eq, Structural)]
pub enum ValueType {
    /// The non-type. This is the default.
    Void,
    /// An `int` or a `float` (also unit based types such as `length` or `angle`)
    Number,
    /// The `string` type
    String,
    /// The `bool` type
    Bool,
    /// A model (arrays included)
    Model,
    /// An object
    Struct,
    /// `brush` or `color`
    Brush,
    /// The `image` type
    Image,
    /// A type that is not public.
    Other,
}

/// Error of reading a property.
#[derive(Debug, Clone, Copy, PartialEq, Eq, Structural)]
pub enum GetPropertyError {
    /// There is no property with the given name
    NoSuchProperty,
}

/// Error of writing a property.
#[derive(Debug, Clone, Copy, PartialEq, Eq, Structural)]
pub enum SetPropertyError {
    /// There is no property with the given name
    NoSuchProperty,
    /// The property exists but its type does not match the value
    WrongType,
}

/// Error of installing a callback handler.
#[derive(Debug, Clone, Copy, PartialEq, Eq, Structural)]
pub enum SetCallbackError {
    /// There is no callback with the given name
    NoSuchCallback,
}

/// Error of invoking a callback.
#[derive(Debug, Clone, Copy, PartialEq, Eq, Structural)]
pub enum InvokeCallbackError {
    /// There is no callback with the given name
    NoSuchCallback,
}

impl GetPropertyError {
    /// A human readable description.
    pub fn message(&self) -> &'static str {
        "no such property"
    }
}

impl SetPropertyError {
    /// A human readable description.
    pub fn message(&self) -> &'static str {
        match self {
            SetPropertyError::NoSuchProperty => "no such property",
            SetPropertyError::WrongType => "wrong type",
        }
    }
}

impl SetCallbackError {
    /// A human readable description.
    pub fn message(&self) -> &'static str {
        "no such callback"
    }
}

impl InvokeCallbackError {
    /// A human readable description.
    pub fn message(&self) -> &'static str {
        "no such callback"
    }
}

/// The identifier with every `_` turned into `-`.
pub open spec fn normalized(ident: Seq<char>) -> Seq<char> {
    ident.map_values(|c: char| if c == '_' { '-' } else { c })
}

/// Relies on `String::push`: appends one character.
#[verifier::external_body]
fn push_char(s: &mut String, c: char)
    ensures
        final(s)@ == old(s)@.push(c),
{
    s.push(c)
}

/// Normalizes an identifier to use dashes: `_` and `-` are the same in
/// names of the markup language.
pub fn normalize_identifier(ident: &str) -> (r: String)
    ensures
        r@ == normalized(ident@),
{
    let n = ident.unicode_len();
    let mut r = String::new();
    let mut i: usize = 0;
    while i < n
        invariant
            n == ident@.len(),
            i <= n,
            r@ == normalized(ident@.subrange(0, i as int)),
        decreases n - i,
    {
        let c = ident.get_char(i);
        push_char(&mut r, if c == '_' { '-' } else { c });
        i = i + 1;
        proof {
            assert(r@ =~= normalized(ident@.subrange(0, i as int)));
        }
    }
    proof {
        assert(ident@.subrange(0, n as int) =~= ident@);
    }
    r
}

} // verus!
