//! The ways in which a declaration or a capacity can be turned down, and
//! how each is reported.

use proc_macro2::{Span, TokenStream};
use syn::Error as SynError;
use vstd::prelude::*;

verus! {

/// A region of source text, as the token library hands it out.
#[verifier::external_type_specification]
#[verifier::external_body]
pub struct ExSpan(Span);

/// A stream of tokens, as the token library hands it out.
#[verifier::external_type_specification]
#[verifier::external_body]
pub struct ExTokenStream(TokenStream);

/// An error of the syntax library.
#[verifier::external_type_specification]
#[verifier::external_body]
pub struct ExSynError(SynError);

/// Why no ring buffer can be generated. Each failure of this library's own
/// checks carries the place it should be reported at.
#[derive(Debug)]
pub enum Error {
    /// The declaration is not a struct.
    NotAStruct(Span),
    /// The struct has positional fields or none.
    NotNamedFields(Span),
    /// No field is called `data`.
    MissingDataField(Span),
    /// The `data` field is not of the shape `Vec<T>`.
    InvalidDataFieldType(Span),
    /// The capacity literal is no `usize`.
    InvalidCapacity(Span),
    /// The capacity literal is zero.
    ZeroCapacity(Span),
    /// A failure that the syntax library reported.
    Syn(SynError),
}

impl Error {
    pub fn not_a_struct(span: Span) -> (error: Self)
        ensures
            error == Error::NotAStruct(span),
    {
        Error::NotAStruct(span)
    }

    pub fn not_named_fields(span: Span) -> (error: Self)
        ensures
            error == Error::NotNamedFields(span),
    {
        Error::NotNamedFields(span)
    }

    pub fn missing_data_field(span: Span) -> (error: Self)
        ensures
            error == Error::MissingDataField(span),
    {
        Error::MissingDataField(span)
    }

    pub fn invalid_data_field_type(span: Span) -> (error: Self)
        ensures
            error == Error::InvalidDataFieldType(span),
    {
        Error::InvalidDataFieldType(span)
    }

    pub fn invalid_capacity(span: Span) -> (error: Self)
        ensures
            error == Error::InvalidCapacity(span),
    {
        Error::InvalidCapacity(span)
    }

    pub fn zero_capacity(span: Span) -> (error: Self)
        ensures
            error == Error::ZeroCapacity(span),
    {
        Error::ZeroCapacity(span)
    }

    /// The text that reports this failure; a failure of the syntax library
    /// brings its own.
    pub open spec fn message_text(self) -> Option<Seq<char>> {
        match self {
            Error::NotAStruct(_) => Some("ring_buffer can only be applied to structs"@),
            Error::NotNamedFields(_) => Some(
                "ring_buffer only works with structs with named fields"@,
            ),
            Error::MissingDataField(_) => Some(
                "ring_buffer requires a field named 'data' of type Vec<T>"@,
            ),
            Error::InvalidDataFieldType(_) => Some("data field must be of type Vec<T>"@),
            Error::InvalidCapacity(_) => Some("capacity must be a valid usize"@),
            Error::ZeroCapacity(_) => Some("capacity must be greater than 0"@),
            Error::Syn(_) => None,
        }
    }

    /// The place this failure is reported at; a failure of the syntax
    /// library brings its own.
    pub open spec fn place(self) -> Option<Span> {
        match self {
            Error::NotAStruct(span) => Some(span),
            Error::NotNamedFields(span) => Some(span),
            Error::MissingDataField(span) => Some(span),
            Error::InvalidDataFieldType(span) => Some(span),
            Error::InvalidCapacity(span) => Some(span),
            Error::ZeroCapacity(span) => Some(span),
            Error::Syn(_) => None,
        }
    }

    /// The text that reports this failure.
    pub fn message(&self) -> (message: Option<&'static str>)
        ensures
            message is Some <==> self.message_text() is Some,
            message is Some ==> message->0@ == self.message_text()->0,
    {
        match self {
            Error::NotAStruct(_) => Some("ring_buffer can only be applied to structs"),
            Error::NotNamedFields(_) => Some(
                "ring_buffer only works with structs with named fields",
            ),
            Error::MissingDataField(_) => Some(
                "ring_buffer requires a field named 'data' of type Vec<T>",
            ),
            Error::InvalidDataFieldType(_) => Some("data field must be of type Vec<T>"),
            Error::InvalidCapacity(_) => Some("capacity must be a valid usize"),
            Error::ZeroCapacity(_) => Some("capacity must be greater than 0"),
            Error::Syn(_) => None,
        }
    }

    /// The place this failure is reported at.
    pub fn span(&self) -> (span: Option<Span>)
        ensures
            span == self.place(),
    {
        match self {
            Error::NotAStruct(span) => Some(*span),
            Error::NotNamedFields(span) => Some(*span),
            Error::MissingDataField(span) => Some(*span),
            Error::InvalidDataFieldType(span) => Some(*span),
            Error::InvalidCapacity(span) => Some(*span),
            Error::ZeroCapacity(span) => Some(*span),
            Error::Syn(_) => None,
        }
    }

    /// Renders this failure as tokens that make the compiler report it: a
    /// failure of this library's own as one `compile_error!` with its
    /// message at its place, a failure of the syntax library as that
    /// library renders it.
    pub fn to_compile_error(&self) -> (tokens: TokenStream)
        ensures
            self.place() matches Some(span) ==> tokens == compile_error_at(
                span,
                self.message_text()->0,
            ),
    {
        match self {
            Error::Syn(error) => compile_error_tokens(error),
            _ => {
                let span = self.span().unwrap();
                let message = self.message().unwrap();
                render_compile_error(span, message)
            },
        }
    }
}

impl From<SynError> for Error {
    fn from(error: SynError) -> (converted: Self) {
        Error::Syn(error)
    }
}

impl vstd::std_specs::convert::FromSpecImpl<SynError> for Error {
    open spec fn obeys_from_spec() -> bool {
        true
    }

    open spec fn from_spec(error: SynError) -> Self {
        Error::Syn(error)
    }
}

/// The tokens of one `compile_error!` invocation that reports `message` at
/// `span`, as the syntax library writes them.
pub uninterp spec fn compile_error_at(span: Span, message: Seq<char>) -> TokenStream;

/// `syn::Error::new` and, on the error it made, `syn::Error::to_compile_error`:
/// the tokens `::core::compile_error!{ "message" }`, the path and the bang
/// at `span`, the braces and the text at `span` too. The error is made and
/// rendered in one place, so the tokens depend on `span` and `message`
/// alone; they are named, not written out.
#[verifier::external_body]
fn render_compile_error(span: Span, message: &str) -> (tokens: TokenStream)
    ensures
        tokens == compile_error_at(span, message@),
{
    SynError::new(span, message).to_compile_error()
}

/// `syn::Error::to_compile_error`: the tokens of one `compile_error!`
/// invocation for each message of `error`. Nothing is claimed of the
/// tokens: an error that was made on another thread is rendered at the
/// call site, so they are no function of `error` alone.
#[verifier::external_body]
fn compile_error_tokens(error: &SynError) -> TokenStream {
    error.to_compile_error()
}

} // verus!
