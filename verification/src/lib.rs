//! A fixed-capacity FIFO ring buffer, together with the generator that
//! binds such a buffer to a declared struct: it reads the capacity, checks
//! the shape of the declaration, adds the buffer's counters to it and plans
//! the operations.

pub mod buffer;
pub mod error;
pub mod generator;
pub mod parser;
pub mod queue;
pub mod syntax;

pub use buffer::{Layout, RingBuffer};
pub use error::Error;
pub use generator::{add_fields, generate_impl, Implementation, Method, Operation};
pub use parser::{extract_vec_element_type, find_data_field, RingBufferArgs};
pub use queue::{Queue, Step};

use parser::{accepted_capacity, data_element_type};
use generator::with_counters;
use proc_macro2::TokenStream;
use syn::Error as SynError;
use syntax::Declaration;
use vstd::prelude::*;

verus! {

/// What the generator hands out: the declaration with the counters added,
/// and the plan of its operations.
#[derive(Debug)]
pub struct Expansion {
    pub declaration: Declaration,
    pub implementation: Implementation,
}

/// Whether `after` is `before` with the four counters added behind its
/// named fields and nothing else changed.
pub open spec fn augments(before: Declaration, after: Declaration) -> bool {
    &&& after.attributes == before.attributes
    &&& after.visibility == before.visibility
    &&& after.name == before.name
    &&& after.span == before.span
    &&& after.generics == before.generics
    &&& after.where_clause == before.where_clause
    &&& before.named_fields() is Some
    &&& after.named_fields() is Some
    &&& with_counters(before.named_fields()->0, after.named_fields()->0)
}

/// Checks `input`, adds the counters to it and plans its operations. A
/// declaration that fails a check is left as it was.
pub fn expand_ring_buffer(args: RingBufferArgs, input: &mut Declaration) -> (plan: Result<
    Implementation,
    Error,
>)
    ensures
        data_element_type(*old(input)) matches Err(error) ==> plan == Err::<Implementation, Error>(
            error,
        ) && *final(input) == *old(input),
        data_element_type(*old(input)) matches Ok(element) ==> plan is Ok && plan->Ok_0.binds(
            *old(input),
            element,
            args.capacity,
        ) && augments(*old(input), *final(input)),
{
    let capacity = args.capacity;
    let element_type = match find_data_field(input) {
        Ok(element_type) => element_type,
        Err(error) => {
            return Err(error);
        },
    };
    let _ = add_fields(input);
    Ok(generate_impl(input, &element_type, capacity))
}

/// The whole generator but for reading the capacity, whose outcome is
/// `args`: a refused capacity is reported before anything else, then the
/// first check that `input` fails, and where nothing fails the
/// declaration comes back with the counters added, beside the plan.
pub fn expand_parsed(args: Result<RingBufferArgs, Error>, input: Declaration) -> (output: Result<
    Expansion,
    Error,
>)
    ensures
        args matches Err(error) ==> output == Err::<Expansion, Error>(error),
        args is Ok ==> (data_element_type(input) matches Err(error) ==> output == Err::<
            Expansion,
            Error,
        >(error)),
        args matches Ok(accepted) ==> (data_element_type(input) matches Ok(element) ==> {
            &&& output matches Ok(expansion)
            &&& expansion.implementation.binds(input, element, accepted.capacity)
            &&& augments(input, expansion.declaration)
        }),
{
    let args = match args {
        Ok(args) => args,
        Err(error) => {
            return Err(error);
        },
    };
    let mut declaration = input;
    match expand_ring_buffer(args, &mut declaration) {
        Ok(implementation) => Ok(Expansion { declaration, implementation }),
        Err(error) => Err(error),
    }
}

/// What to report where the item itself could not be read: a refused
/// capacity comes before the failure to read the item.
pub fn report_unparsed(args: Result<RingBufferArgs, Error>, failure: SynError) -> (report: Error)
    ensures
        args matches Err(error) ==> report == error,
        args is Ok ==> report == Error::Syn(failure),
{
    match args {
        Ok(_) => Error::Syn(failure),
        Err(error) => error,
    }
}

/// Generates a ring buffer of the capacity that `args` spells for the
/// struct that `input` declares, or the tokens that make the compiler
/// report why there is none. There is a buffer exactly when the tokens
/// spell a positive capacity and the declaration passes every check.
pub fn ring_buffer(args: TokenStream, input: Declaration) -> (output: Result<
    Expansion,
    TokenStream,
>)
    ensures
        accepted_capacity(args) is None ==> output is Err,
        data_element_type(input) is Err ==> output is Err,
        accepted_capacity(args) matches Some(capacity) ==> (data_element_type(input) matches Ok(
            element,
        ) ==> {
            &&& output matches Ok(expansion)
            &&& expansion.implementation.binds(input, element, capacity)
            &&& augments(input, expansion.declaration)
        }),
{
    match expand_parsed(RingBufferArgs::parse(args), input) {
        Ok(expansion) => Ok(expansion),
        Err(error) => Err(error.to_compile_error()),
    }
}

} // verus!
