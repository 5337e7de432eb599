//! Reading the capacity and finding the element type of the `data` field.

use crate::error::Error;
use crate::syntax::{
    first_named, spells, Data, Declaration, ElementType, Field, Fields, GenericArgument,
    PathArguments, Type, TypeKind,
};
use proc_macro2::{Span, TokenStream};
use syn::Error as SynError;
use syn::LitInt;
use vstd::prelude::*;

verus! {

/// An integer literal token of the syntax library.
#[verifier::external_type_specification]
#[verifier::external_body]
pub struct ExLitInt(LitInt);

/// The argument of the generator: how many elements the buffer holds.
#[derive(Debug)]
pub struct RingBufferArgs {
    pub capacity: usize,
}

/// The integer literal that `tokens` consist of, if they are one integer
/// literal and nothing else, as the syntax library reads them.
pub uninterp spec fn integer_literal(tokens: TokenStream) -> Option<LitInt>;

/// The value of `literal`, if it fits a `usize`.
pub uninterp spec fn decimal_value(literal: LitInt) -> Option<usize>;

/// The place of `literal` in the source.
pub uninterp spec fn place_of(literal: LitInt) -> Span;

/// `syn::parse2::<syn::LitInt>`: the integer literal that makes up all of
/// `input`, or the syntax library's error where `input` is anything else.
/// Which streams are one integer literal is named, not written out.
#[verifier::external_body]
fn parse_literal(input: TokenStream) -> (literal: Result<LitInt, SynError>)
    ensures
        literal matches Ok(found) ==> integer_literal(input) == Some(found),
        literal is Err ==> integer_literal(input) is None,
{
    syn::parse2::<LitInt>(input)
}

/// `syn::LitInt::base10_parse::<usize>`: the value of the literal, or the
/// syntax library's error where its digits do not make a `usize`. Which
/// literals have which value is named, not written out.
#[verifier::external_body]
fn base10_parse(literal: &LitInt) -> (parsed: Result<usize, SynError>)
    ensures
        parsed matches Ok(value) ==> decimal_value(*literal) == Some(value),
        parsed is Err ==> decimal_value(*literal) is None,
{
    literal.base10_parse::<usize>()
}

/// `syn::LitInt::span`: the place of the literal in the source.
#[verifier::external_body]
fn literal_span(literal: &LitInt) -> (span: Span)
    ensures
        span == place_of(*literal),
{
    literal.span()
}

/// `syn::Error::span`: the place that the error points at. Nothing is
/// claimed of it: off the thread that made the error it is the call site.
#[verifier::external_body]
fn error_span(error: &SynError) -> Span {
    error.span()
}

/// The capacity that `tokens` spell: the value of the integer literal that
/// they consist of, where that is a positive `usize`.
pub open spec fn accepted_capacity(tokens: TokenStream) -> Option<usize> {
    match integer_literal(tokens) {
        Some(literal) => match decimal_value(literal) {
            Some(capacity) => if capacity == 0 {
                None
            } else {
                Some(capacity)
            },
            None => None,
        },
        None => None,
    }
}

impl RingBufferArgs {
    /// What a capacity literal amounts to, given the outcome of reading
    /// its value: the value where it is a positive `usize`, and otherwise
    /// the failure that says why not, at the place of the literal.
    pub open spec fn checked(parsed: Result<usize, SynError>, span: Span) -> Result<
        RingBufferArgs,
        Error,
    > {
        match parsed {
            Err(_) => Err(Error::InvalidCapacity(span)),
            Ok(capacity) => if capacity == 0 {
                Err(Error::ZeroCapacity(span))
            } else {
                Ok(RingBufferArgs { capacity })
            },
        }
    }

    /// What the integer literal `literal` amounts to as a capacity: its
    /// value where that is a positive `usize`; `InvalidCapacity` where it
    /// has no value that fits a `usize`; `ZeroCapacity` where it is zero.
    /// Both failures are placed at the literal.
    pub open spec fn of_literal(literal: LitInt) -> Result<RingBufferArgs, Error> {
        match decimal_value(literal) {
            None => Err(Error::InvalidCapacity(place_of(literal))),
            Some(capacity) => if capacity == 0 {
                Err(Error::ZeroCapacity(place_of(literal)))
            } else {
                Ok(RingBufferArgs { capacity })
            },
        }
    }

    /// Accepts or refuses a capacity literal found at `span`, given the
    /// outcome of reading its value.
    pub fn from_parsed(parsed: Result<usize, SynError>, span: Span) -> (args: Result<
        RingBufferArgs,
        Error,
    >)
        ensures
            args == Self::checked(parsed, span),
    {
        match parsed {
            Err(_) => Err(Error::invalid_capacity(span)),
            Ok(capacity) => {
                if capacity == 0 {
                    Err(Error::zero_capacity(span))
                } else {
                    Ok(RingBufferArgs { capacity })
                }
            },
        }
    }

    /// Reads the capacity from the tokens of the argument. Tokens that are
    /// not one integer literal are refused as `InvalidCapacity`; an integer
    /// literal is accepted or refused by its value.
    pub fn parse(input: TokenStream) -> (args: Result<RingBufferArgs, Error>)
        ensures
            integer_literal(input) is None ==> args is Err && args->Err_0 is InvalidCapacity,
            integer_literal(input) matches Some(literal) ==> args == Self::of_literal(literal),
            args matches Ok(accepted) ==> accepted_capacity(input) == Some(accepted.capacity)
                && accepted.capacity > 0,
            args is Err ==> accepted_capacity(input) is None,
    {
        match parse_literal(input) {
            Ok(literal) => Self::from_parsed(base10_parse(&literal), literal_span(&literal)),
            Err(error) => Err(Error::invalid_capacity(error_span(&error))),
        }
    }
}

/// The element type that `ty` names, where `ty` is the one-segment path
/// `Vec` with one argument between angle brackets, a type. A path that
/// ends in another name is reported at that name, every other mismatch at
/// the whole type.
pub open spec fn element_type_of(ty: Type) -> Result<ElementType, Error> {
    match ty.kind {
        TypeKind::Path(segments) => if segments@.len() == 0 {
            Err(Error::InvalidDataFieldType(ty.span))
        } else if segments@.last().ident@ != "Vec"@ {
            Err(Error::InvalidDataFieldType(segments@.last().span))
        } else if segments@.len() != 1 {
            Err(Error::InvalidDataFieldType(ty.span))
        } else {
            match segments@[0].arguments {
                PathArguments::AngleBracketed(arguments) => if arguments@.len() != 1 {
                    Err(Error::InvalidDataFieldType(ty.span))
                } else {
                    match arguments@[0] {
                        GenericArgument::Type(element) => Ok(element),
                        GenericArgument::Other => Err(Error::InvalidDataFieldType(ty.span)),
                    }
                },
                _ => Err(Error::InvalidDataFieldType(ty.span)),
            }
        },
        TypeKind::Other => Err(Error::InvalidDataFieldType(ty.span)),
    }
}

/// The element type of the buffer that `input` asks for. The checks come
/// in a fixed order and the first that fails decides: a struct, with named
/// fields, one of them called `data`, of the shape `Vec<T>`.
pub open spec fn data_element_type(input: Declaration) -> Result<ElementType, Error> {
    match input.data {
        Data::Struct(Fields::Named(fields)) => match first_named(fields@, "data"@) {
            Some(field) => element_type_of(field.ty),
            None => Err(Error::MissingDataField(input.span)),
        },
        Data::Struct(_) => Err(Error::NotNamedFields(input.span)),
        _ => Err(Error::NotAStruct(input.span)),
    }
}

/// Extracts the element type `T` from a type of the shape `Vec<T>`.
pub fn extract_vec_element_type(ty: &Type) -> (element: Result<ElementType, Error>)
    ensures
        element == element_type_of(*ty),
{
    if let TypeKind::Path(segments) = &ty.kind {
        if segments.len() > 0 {
            let segment = &segments[segments.len() - 1];
            if !spells(&segment.ident, "Vec") {
                return Err(Error::invalid_data_field_type(segment.span));
            }
            if segments.len() == 1 {
                if let PathArguments::AngleBracketed(arguments) = &segment.arguments {
                    if arguments.len() == 1 {
                        if let GenericArgument::Type(element) = &arguments[0] {
                            return Ok(element.clone());
                        }
                    }
                }
            }
        }
    }
    Err(Error::invalid_data_field_type(ty.span))
}

/// Finds the field called `data` and extracts its element type.
pub fn find_data_field(input: &Declaration) -> (element: Result<ElementType, Error>)
    ensures
        element == data_element_type(*input),
{
    let fields = match &input.data {
        Data::Struct(Fields::Named(fields)) => fields,
        Data::Struct(_) => {
            return Err(Error::not_named_fields(input.span));
        },
        _ => {
            return Err(Error::not_a_struct(input.span));
        },
    };
    assert(fields@.skip(0) =~= fields@);
    let mut i: usize = 0;
    while i < fields.len()
        invariant
            i <= fields.len(),
            input.data == Data::Struct(Fields::Named(*fields)),
            first_named(fields@, "data"@) == first_named(fields@.skip(i as int), "data"@),
        decreases fields.len() - i,
    {
        let field = &fields[i];
        assert(fields@.skip(i as int).len() > 0);
        assert(fields@.skip(i as int)[0] == fields@[i as int]);
        if spells(&field.name, "data") {
            return extract_vec_element_type(&field.ty);
        }
        assert(fields@.skip(i as int).skip(1) =~= fields@.skip(i + 1));
        i += 1;
    }
    Err(Error::missing_data_field(input.span))
}

} // verus!
