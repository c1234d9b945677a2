//! Error kinds, source locations and error details.
//!
//! Errors are either catchable by Scheme (`guard`, `with-exception-handler`)
//! or stay in Rust (`Internal`, `ControlFlow`).
use vstd::prelude::*;
use crate::text::{
    decimal, push_chars, push_decimal, push_signed_decimal, push_str, signed_decimal,
    string_from_chars, chars_of,
};

verus! {

/// The R7RS classification of a Scheme-level exception.
#[derive(Debug, Clone, Copy, PartialEq, Eq, Structural)]
pub enum ExceptionKind {
    /// A general error object (`error-object?`).
    Error,
    /// A file error (`file-error?`).
    FileError,
    /// A read error (`read-error?`).
    ReadError,
}

/// A Scheme value carried as an irritant of an error.
#[derive(Debug)]
pub enum Value {
    Integer(i64),
    Boolean(bool),
    Symbol(String),
    Str(String),
    Null,
    /// An exception object, by its kind and message.
    Exception { kind: ExceptionKind, message: String },
}

/// A Scheme exception object.
#[derive(Debug)]
pub struct ExceptionObject {
    pub kind: ExceptionKind,
    pub message: String,
    pub irritants: Vec<Value>,
}

/// How a value is displayed in a message.
pub open spec fn spec_value_display(v: Value) -> Seq<char> {
    match v {
        Value::Integer(n) => signed_decimal(n as int),
        Value::Boolean(b) => if b {
            seq!['#', 't']
        } else {
            seq!['#', 'f']
        },
        Value::Symbol(s) => s@,
        Value::Str(s) => s@,
        Value::Null => seq!['(', ')'],
        Value::Exception { message, .. } => message@,
    }
}

impl Clone for Value {
    fn clone(&self) -> (r: Value)
        ensures
            r == *self,
    {
        self.duplicate()
    }
}

impl Clone for ExceptionObject {
    fn clone(&self) -> (r: ExceptionObject)
        ensures
            r.kind == self.kind,
            r.message == self.message,
            r.irritants@ == self.irritants@,
    {
        self.duplicate()
    }
}

impl ExceptionObject {
    /// A copy of this exception object.
    pub fn duplicate(&self) -> (r: ExceptionObject)
        ensures
            r.kind == self.kind,
            r.message == self.message,
            r.irritants@ == self.irritants@,
    {
        ExceptionObject {
            kind: self.kind,
            message: self.message.clone(),
            irritants: duplicate_values(&self.irritants),
        }
    }
}

/// A copy of every value of `vs`.
pub fn duplicate_values(vs: &Vec<Value>) -> (r: Vec<Value>)
    ensures
        r@ == vs@,
{
    let mut out: Vec<Value> = Vec::new();
    let mut i: usize = 0;
    while i < vs.len()
        invariant
            i <= vs@.len(),
            out@ == vs@.take(i as int),
        decreases vs@.len() - i,
    {
        out.push(vs[i].duplicate());
        proof {
            assert(vs@.take(i + 1) =~= vs@.take(i as int).push(vs@[i as int]));
        }
        i += 1;
    }
    proof {
        assert(vs@.take(vs@.len() as int) =~= vs@);
    }
    out
}

impl Value {
    /// A copy of this value.
    pub fn duplicate(&self) -> (r: Value)
        ensures
            r == *self,
    {
        match self {
            Value::Integer(n) => Value::Integer(*n),
            Value::Boolean(b) => Value::Boolean(*b),
            Value::Symbol(s) => Value::Symbol(s.clone()),
            Value::Str(s) => Value::Str(s.clone()),
            Value::Null => Value::Null,
            Value::Exception { kind, message } => Value::Exception { kind: *kind, message: message.clone() },
        }
    }

    /// A symbol named `name`.
    pub fn symbol(name: &str) -> (r: Value)
        ensures
            r matches Value::Symbol(s) && s@ == name@,
    {
        Value::Symbol(string_from_chars(&chars_of(name)))
    }

    /// How this value is displayed in a message.
    pub fn display_chars(&self) -> (r: Vec<char>)
        ensures
            r@ == spec_value_display(*self),
    {
        let mut out: Vec<char> = Vec::new();
        match self {
            Value::Integer(n) => push_signed_decimal(&mut out, *n),
            Value::Boolean(b) => {
                out.push('#');
                if *b {
                    out.push('t');
                } else {
                    out.push('f');
                }
            },
            Value::Symbol(s) => push_str(&mut out, s.as_str()),
            Value::Str(s) => push_str(&mut out, s.as_str()),
            Value::Null => {
                out.push('(');
                out.push(')');
            },
            Value::Exception { message, .. } => push_str(&mut out, message.as_str()),
        }
        proof {
            assert(out@ =~= spec_value_display(*self));
        }
        out
    }
}

/// Where an error occurred.
#[derive(Debug, Clone)]
pub struct SourceLocation {
    /// Source file, `<repl>` or `<string>`.
    pub source: String,
    /// 1-indexed line number.
    pub line: u32,
    /// 1-indexed column number.
    pub column: u32,
    /// Optional span length.
    pub length: Option<u32>,
}

/// How a location is displayed: `source:line:column`.
pub open spec fn spec_location_display(loc: SourceLocation) -> Seq<char> {
    loc.source@ + seq![':'] + decimal(loc.line as nat) + seq![':'] + decimal(loc.column as nat)
}

impl SourceLocation {
    /// A location without a span length.
    pub fn new(source: &str, line: u32, column: u32) -> (r: SourceLocation)
        ensures
            r.source@ == source@,
            r.line == line,
            r.column == column,
            r.length is None,
    {
        SourceLocation {
            source: string_from_chars(&chars_of(source)),
            line,
            column,
            length: None,
        }
    }

    /// A location with a span length.
    pub fn with_length(source: &str, line: u32, column: u32, length: u32) -> (r: SourceLocation)
        ensures
            r.source@ == source@,
            r.line == line,
            r.column == column,
            r.length == Some(length),
    {
        SourceLocation {
            source: string_from_chars(&chars_of(source)),
            line,
            column,
            length: Some(length),
        }
    }

    /// A location in REPL input.
    pub fn repl(line: u32, column: u32) -> (r: SourceLocation)
        ensures
            r.source@ == "<repl>"@,
            r.line == line,
            r.column == column,
            r.length is None,
    {
        Self::new("<repl>", line, column)
    }

    /// A location in string input.
    pub fn string(line: u32, column: u32) -> (r: SourceLocation)
        ensures
            r.source@ == "<string>"@,
            r.line == line,
            r.column == column,
            r.length is None,
    {
        Self::new("<string>", line, column)
    }

    /// A copy of this location.
    pub fn duplicate(&self) -> (r: SourceLocation)
        ensures
            r.source@ == self.source@,
            r.line == self.line,
            r.column == self.column,
            r.length == self.length,
    {
        SourceLocation {
            source: string_from_chars(&chars_of(self.source.as_str())),
            line: self.line,
            column: self.column,
            length: self.length,
        }
    }

    /// `source:line:column`, as characters.
    pub fn display_chars(&self) -> (r: Vec<char>)
        ensures
            r@ == spec_location_display(*self),
    {
        let mut out: Vec<char> = Vec::new();
        push_str(&mut out, self.source.as_str());
        out.push(':');
        push_decimal(&mut out, self.line as u64);
        out.push(':');
        push_decimal(&mut out, self.column as u64);
        proof {
            assert(out@ =~= spec_location_display(*self));
        }
        out
    }

    /// `source:line:column`.
    pub fn to_display_string(&self) -> (r: String)
        ensures
            r@ == spec_location_display(*self),
    {
        string_from_chars(&self.display_chars())
    }
}

/// Classification of errors.
#[derive(Debug, Clone, Copy, PartialEq, Eq, Structural)]
pub enum ErrorKind {
    Type,
    Arity,
    Domain,
    Bounds,
    Lookup,
    Application,
    FileIO,
    Read,
    Syntax,
    User,
    Internal,
    ControlFlow,
}

/// The short description of each error kind.
pub open spec fn spec_kind_description(k: ErrorKind) -> Seq<char> {
    match k {
        ErrorKind::Type => "type error"@,
        ErrorKind::Arity => "arity error"@,
        ErrorKind::Domain => "domain error"@,
        ErrorKind::Bounds => "bounds error"@,
        ErrorKind::Lookup => "lookup error"@,
        ErrorKind::Application => "application error"@,
        ErrorKind::FileIO => "file error"@,
        ErrorKind::Read => "read error"@,
        ErrorKind::Syntax => "syntax error"@,
        ErrorKind::User => "error"@,
        ErrorKind::Internal => "internal error"@,
        ErrorKind::ControlFlow => "control flow"@,
    }
}

impl ErrorKind {
    /// Whether Scheme's `guard` / `with-exception-handler` can catch it:
    /// every kind but `Internal` and `ControlFlow`.
    pub fn is_catchable(&self) -> (r: bool)
        ensures
            r == !(*self is Internal || *self is ControlFlow),
    {
        !matches!(self, ErrorKind::Internal | ErrorKind::ControlFlow)
    }

    /// The R7RS exception kind: file errors and read errors keep their own
    /// predicate, everything else is a plain error object.
    pub fn to_exception_kind(&self) -> (r: ExceptionKind)
        ensures
            r == (match *self {
                ErrorKind::FileIO => ExceptionKind::FileError,
                ErrorKind::Read => ExceptionKind::ReadError,
                _ => ExceptionKind::Error,
            }),
    {
        match self {
            ErrorKind::FileIO => ExceptionKind::FileError,
            ErrorKind::Read => ExceptionKind::ReadError,
            _ => ExceptionKind::Error,
        }
    }

    /// A short description of this kind.
    pub fn description(&self) -> (r: &'static str)
        ensures
            r@ == spec_kind_description(*self),
    {
        match self {
            ErrorKind::Type => "type error",
            ErrorKind::Arity => "arity error",
            ErrorKind::Domain => "domain error",
            ErrorKind::Bounds => "bounds error",
            ErrorKind::Lookup => "lookup error",
            ErrorKind::Application => "application error",
            ErrorKind::FileIO => "file error",
            ErrorKind::Read => "read error",
            ErrorKind::Syntax => "syntax error",
            ErrorKind::User => "error",
            ErrorKind::Internal => "internal error",
            ErrorKind::ControlFlow => "control flow",
        }
    }
}

/// Detailed error information.
#[derive(Debug, Clone)]
pub struct ErrorDetail {
    pub kind: ErrorKind,
    pub message: String,
    pub irritants: Vec<Value>,
    pub location: Option<SourceLocation>,
}

/// The message with its location in front, when there is one.
pub open spec fn spec_format_message(e: ErrorDetail) -> Seq<char> {
    match e.location {
        Some(loc) => spec_location_display(loc) + seq![':', ' '] + e.message@,
        None => e.message@,
    }
}

/// The irritants' displays, separated by single spaces.
pub open spec fn spec_join_displays(vs: Seq<Value>) -> Seq<char>
    decreases vs.len(),
{
    if vs.len() == 0 {
        Seq::empty()
    } else if vs.len() == 1 {
        spec_value_display(vs[0])
    } else {
        spec_join_displays(vs.drop_last()) + seq![' '] + spec_value_display(vs.last())
    }
}

/// How an error detail is displayed: location, kind, message, and the
/// irritants in brackets when there are any.
pub open spec fn spec_error_display(e: ErrorDetail) -> Seq<char> {
    let head = match e.location {
        Some(loc) => spec_location_display(loc) + seq![':', ' '],
        None => Seq::empty(),
    };
    let body = head + spec_kind_description(e.kind) + seq![':', ' '] + e.message@;
    if e.irritants@.len() == 0 {
        body
    } else {
        body + seq![' ', '['] + spec_join_displays(e.irritants@) + seq![']']
    }
}

impl ErrorDetail {
    /// An error with no irritants and no location.
    pub fn new(kind: ErrorKind, message: &str) -> (r: ErrorDetail)
        ensures
            r.kind == kind,
            r.message@ == message@,
            r.irritants@.len() == 0,
            r.location is None,
    {
        ErrorDetail {
            kind,
            message: string_from_chars(&chars_of(message)),
            irritants: Vec::new(),
            location: None,
        }
    }

    /// This error with `value` added to its irritants.
    pub fn with_irritant(self, value: Value) -> (r: ErrorDetail)
        ensures
            r.kind == self.kind,
            r.message == self.message,
            r.irritants@ == self.irritants@.push(value),
            r.location == self.location,
    {
        let mut s = self;
        s.irritants.push(value);
        s
    }

    /// This error with `values` added after its irritants.
    pub fn with_irritants(self, values: Vec<Value>) -> (r: ErrorDetail)
        ensures
            r.kind == self.kind,
            r.message == self.message,
            r.irritants@ == self.irritants@ + values@,
            r.location == self.location,
    {
        let mut s = self;
        let mut more = values;
        s.irritants.append(&mut more);
        s
    }

    /// This error located at `location`.
    pub fn with_location(self, location: SourceLocation) -> (r: ErrorDetail)
        ensures
            r.kind == self.kind,
            r.message == self.message,
            r.irritants == self.irritants,
            r.location == Some(location),
    {
        let mut s = self;
        s.location = Some(location);
        s
    }

    /// This error with its location replaced by `location`.
    pub fn with_opt_location(self, location: Option<SourceLocation>) -> (r: ErrorDetail)
        ensures
            r.kind == self.kind,
            r.message == self.message,
            r.irritants == self.irritants,
            r.location == location,
    {
        let mut s = self;
        s.location = location;
        s
    }

    /// Whether Scheme can catch this error.
    pub fn is_catchable(&self) -> (r: bool)
        ensures
            r == !(self.kind is Internal || self.kind is ControlFlow),
    {
        self.kind.is_catchable()
    }

    /// The message, with the location in front when there is one.
    pub fn format_message(&self) -> (r: String)
        ensures
            r@ == spec_format_message(*self),
    {
        match &self.location {
            Some(loc) => {
                let mut out = loc.display_chars();
                out.push(':');
                out.push(' ');
                push_str(&mut out, self.message.as_str());
                proof {
                    assert(out@ =~= spec_format_message(*self));
                }
                string_from_chars(&out)
            },
            None => self.message.clone(),
        }
    }

    /// The irritants' displays, joined by spaces.
    pub fn format_irritants(&self) -> (r: String)
        ensures
            r@ == spec_join_displays(self.irritants@),
    {
        string_from_chars(&self.irritant_chars())
    }

    fn irritant_chars(&self) -> (r: Vec<char>)
        ensures
            r@ == spec_join_displays(self.irritants@),
    {
        let mut out: Vec<char> = Vec::new();
        let mut i: usize = 0;
        while i < self.irritants.len()
            invariant
                i <= self.irritants@.len(),
                out@ == spec_join_displays(self.irritants@.take(i as int)),
            decreases self.irritants@.len() - i,
        {
            let d = self.irritants[i].display_chars();
            let ghost prev = out@;
            if i > 0 {
                out.push(' ');
            }
            push_chars(&mut out, d.as_slice());
            proof {
                let t = self.irritants@.take(i + 1);
                assert(t.drop_last() =~= self.irritants@.take(i as int));
                assert(t.last() == self.irritants@[i as int]);
                if i == 0 {
                    assert(out@ =~= spec_join_displays(t));
                } else {
                    assert(out@ =~= spec_join_displays(t));
                }
            }
            i += 1;
        }
        proof {
            assert(self.irritants@.take(self.irritants@.len() as int) =~= self.irritants@);
        }
        out
    }

    /// The Scheme exception object for this error.
    pub fn to_exception(&self) -> (r: ExceptionObject)
        ensures
            r.kind == self.kind.to_exception_kind_spec(),
            r.message@ == spec_format_message(*self),
            r.irritants@ == self.irritants@,
    {
        ExceptionObject {
            kind: self.kind.to_exception_kind(),
            message: self.format_message(),
            irritants: duplicate_values(&self.irritants),
        }
    }

    /// The Scheme exception value for this error.
    pub fn to_exception_value(&self) -> (r: Value)
        ensures
            r matches Value::Exception { kind, message } && kind == self.kind.to_exception_kind_spec()
                && message@ == spec_format_message(*self),
    {
        Value::Exception { kind: self.kind.to_exception_kind(), message: self.format_message() }
    }

    /// How this error is displayed.
    pub fn to_display_string(&self) -> (r: String)
        ensures
            r@ == spec_error_display(*self),
    {
        let mut out: Vec<char> = Vec::new();
        match &self.location {
            Some(loc) => {
                let l = loc.display_chars();
                push_chars(&mut out, l.as_slice());
                out.push(':');
                out.push(' ');
            },
            None => {},
        }
        push_str(&mut out, self.kind.description());
        out.push(':');
        out.push(' ');
        push_str(&mut out, self.message.as_str());
        if self.irritants.len() > 0 {
            out.push(' ');
            out.push('[');
            let j = self.irritant_chars();
            push_chars(&mut out, j.as_slice());
            out.push(']');
        }
        proof {
            assert(out@ =~= spec_error_display(*self));
        }
        string_from_chars(&out)
    }

    /// A type error about the value `got`.
    pub fn type_error(message: &str, got: Value) -> (r: ErrorDetail)
        ensures
            r.kind == ErrorKind::Type,
            r.message@ == message@,
            r.irritants@ == seq![got],
            r.location is None,
    {
        let r = Self::new(ErrorKind::Type, message).with_irritant(got);
        proof {
            assert(r.irritants@ =~= seq![got]);
        }
        r
    }

    /// An arity error: `expected {expected} arguments, got {actual}`.
    pub fn arity_error(expected: &str, actual: usize) -> (r: ErrorDetail)
        ensures
            r.kind == ErrorKind::Arity,
            r.message@ == "expected "@ + expected@ + " arguments, got "@ + decimal(actual as nat),
            r.irritants@ == seq![Value::Integer(actual as i64)],
            r.location is None,
    {
        let mut m: Vec<char> = Vec::new();
        push_str(&mut m, "expected ");
        push_str(&mut m, expected);
        push_str(&mut m, " arguments, got ");
        push_decimal(&mut m, actual as u64);
        let r = ErrorDetail {
            kind: ErrorKind::Arity,
            message: string_from_chars(&m),
            irritants: vec![Value::Integer(actual as i64)],
            location: None,
        };
        proof {
            assert(m@ =~= "expected "@ + expected@ + " arguments, got "@ + decimal(actual as nat));
        }
        r
    }

    /// A domain error.
    pub fn domain_error(message: &str) -> (r: ErrorDetail)
        ensures
            r.kind == ErrorKind::Domain,
            r.message@ == message@,
            r.irritants@.len() == 0,
            r.location is None,
    {
        Self::new(ErrorKind::Domain, message)
    }

    /// A bounds error: `index {index} out of bounds for length {len}`.
    pub fn bounds_error(index: i64, len: usize) -> (r: ErrorDetail)
        ensures
            r.kind == ErrorKind::Bounds,
            r.message@ == "index "@ + signed_decimal(index as int) + " out of bounds for length "@
                + decimal(len as nat),
            r.irritants@ == seq![Value::Integer(index), Value::Integer(len as i64)],
            r.location is None,
    {
        let mut m: Vec<char> = Vec::new();
        push_str(&mut m, "index ");
        push_signed_decimal(&mut m, index);
        push_str(&mut m, " out of bounds for length ");
        push_decimal(&mut m, len as u64);
        let r = ErrorDetail {
            kind: ErrorKind::Bounds,
            message: string_from_chars(&m),
            irritants: vec![Value::Integer(index), Value::Integer(len as i64)],
            location: None,
        };
        proof {
            assert(m@ =~= "index "@ + signed_decimal(index as int) + " out of bounds for length "@
                + decimal(len as nat));
        }
        r
    }

    /// A lookup error: `undefined variable: {name}`.
    pub fn lookup_error(name: &str) -> (r: ErrorDetail)
        ensures
            r.kind == ErrorKind::Lookup,
            r.message@ == "undefined variable: "@ + name@,
            r.irritants@.len() == 1,
            r.irritants@[0] matches Value::Symbol(s) && s@ == name@,
            r.location is None,
    {
        let mut m: Vec<char> = Vec::new();
        push_str(&mut m, "undefined variable: ");
        push_str(&mut m, name);
        ErrorDetail {
            kind: ErrorKind::Lookup,
            message: string_from_chars(&m),
            irritants: vec![Value::symbol(name)],
            location: None,
        }
    }

    /// An application error: `not a procedure: {value}`.
    pub fn application_error(value: &Value) -> (r: ErrorDetail)
        ensures
            r.kind == ErrorKind::Application,
            r.message@ == "not a procedure: "@ + spec_value_display(*value),
            r.irritants@.len() == 1,
            r.location is None,
    {
        let mut m: Vec<char> = Vec::new();
        push_str(&mut m, "not a procedure: ");
        let d = value.display_chars();
        push_chars(&mut m, d.as_slice());
        ErrorDetail {
            kind: ErrorKind::Application,
            message: string_from_chars(&m),
            irritants: vec![value.duplicate()],
            location: None,
        }
    }

    /// A file I/O error.
    pub fn file_error(message: &str) -> (r: ErrorDetail)
        ensures
            r.kind == ErrorKind::FileIO,
            r.message@ == message@,
            r.irritants@.len() == 0,
            r.location is None,
    {
        Self::new(ErrorKind::FileIO, message)
    }

    /// A read error.
    pub fn read_error(message: &str) -> (r: ErrorDetail)
        ensures
            r.kind == ErrorKind::Read,
            r.message@ == message@,
            r.irritants@.len() == 0,
            r.location is None,
    {
        Self::new(ErrorKind::Read, message)
    }

    /// A syntax error.
    pub fn syntax_error(message: &str) -> (r: ErrorDetail)
        ensures
            r.kind == ErrorKind::Syntax,
            r.message@ == message@,
            r.irritants@.len() == 0,
            r.location is None,
    {
        Self::new(ErrorKind::Syntax, message)
    }

    /// A user error raised by Scheme's `error`.
    pub fn user_error(message: &str, irritants: Vec<Value>) -> (r: ErrorDetail)
        ensures
            r.kind == ErrorKind::User,
            r.message@ == message@,
            r.irritants@ == irritants@,
            r.location is None,
    {
        let r = Self::new(ErrorKind::User, message);
        let ghost none = r.irritants@;
        let r = r.with_irritants(irritants);
        assert(r.irritants@ =~= none + irritants@);
        assert(none + irritants@ =~= irritants@);
        r
    }

    /// An internal error.
    pub fn internal_error(message: &str) -> (r: ErrorDetail)
        ensures
            r.kind == ErrorKind::Internal,
            r.message@ == message@,
            r.irritants@.len() == 0,
            r.location is None,
    {
        Self::new(ErrorKind::Internal, message)
    }
}

impl ErrorKind {
    /// The R7RS exception kind, as a spec function.
    pub open spec fn to_exception_kind_spec(self) -> ExceptionKind {
        match self {
            ErrorKind::FileIO => ExceptionKind::FileError,
            ErrorKind::Read => ExceptionKind::ReadError,
            _ => ExceptionKind::Error,
        }
    }
}

} // verus!
