//! Extending a checked declaration with the buffer's counters, and
//! planning the operations that are generated for it.

use crate::error::Error;
use crate::syntax::{
    Data, Declaration, ElementType, Field, Fields, GenericParam, PathArguments, PathSegment,
    Type, TypeKind, Visibility,
};
use proc_macro2::Span;
use vstd::prelude::*;

verus! {

/// `proc_macro2::Span::call_site`: the place of the macro invocation that
/// is being expanded. Nothing is claimed of the value.
#[verifier::external_body]
fn call_site() -> Span {
    Span::call_site()
}

/// Whether `field` is called `name`, has the plain type `usize`, and is
/// private and without attributes.
pub open spec fn is_counter(field: Field, name: Seq<char>) -> bool {
    &&& field.name@ == name
    &&& field.attributes@.len() == 0
    &&& field.visibility is Inherited
    &&& field.ty.kind matches TypeKind::Path(segments)
    &&& segments@.len() == 1
    &&& segments@[0].ident@ == "usize"@
    &&& segments@[0].arguments is Absent
}

/// Whether `after` is `before` followed by the four counters of a ring
/// buffer, in the order `capacity`, `head`, `tail`, `size`.
pub open spec fn with_counters(before: Seq<Field>, after: Seq<Field>) -> bool {
    let n = before.len() as int;
    &&& after.len() == n + 4
    &&& after.take(n) == before
    &&& is_counter(after[n], "capacity"@)
    &&& is_counter(after[n + 1], "head"@)
    &&& is_counter(after[n + 2], "tail"@)
    &&& is_counter(after[n + 3], "size"@)
}

/// A field called `name` of type `usize`, placed at the call site.
fn counter(name: &str) -> (field: Field)
    ensures
        is_counter(field, name@),
{
    let span = call_site();
    let mut segments: Vec<PathSegment> = Vec::new();
    segments.push(
        PathSegment { ident: String::from_str("usize"), span, arguments: PathArguments::Absent },
    );
    Field {
        attributes: Vec::new(),
        visibility: Visibility::Inherited,
        name: String::from_str(name),
        ty: Type { kind: TypeKind::Path(segments), span },
    }
}

/// Adds the fields `capacity`, `head`, `tail` and `size` behind the named
/// fields of a struct. The fields that were there stay as they were, in
/// their order and with their attributes; nothing else of the declaration
/// changes, and a declaration without named fields stays as it is. This
/// never fails.
pub fn add_fields(input: &mut Declaration) -> (done: Result<(), Error>)
    ensures
        done is Ok,
        final(input).attributes == old(input).attributes,
        final(input).visibility == old(input).visibility,
        final(input).name == old(input).name,
        final(input).span == old(input).span,
        final(input).generics == old(input).generics,
        final(input).where_clause == old(input).where_clause,
        old(input).named_fields() is None ==> *final(input) == *old(input),
        old(input).named_fields() is Some ==> final(input).named_fields() is Some
            && with_counters(old(input).named_fields()->0, final(input).named_fields()->0),
{
    if let Data::Struct(data_struct) = &mut input.data {
        if let Fields::Named(fields) = data_struct {
            let ghost before = fields@;
            fields.push(counter("capacity"));
            fields.push(counter("head"));
            fields.push(counter("tail"));
            fields.push(counter("size"));
            assert(fields@.take(before.len() as int) =~= before);
        }
    }
    Ok(())
}

/// An operation of a generated ring buffer.
#[derive(Debug, Clone, Copy, PartialEq, Eq, Structural)]
pub enum Operation {
    New,
    Enqueue,
    Dequeue,
    IsFull,
    IsEmpty,
    Len,
    Capacity,
    Clear,
}

impl Operation {
    /// The operations of a ring buffer, in the order they are generated.
    pub open spec fn all() -> Seq<Operation> {
        seq![
            Operation::New,
            Operation::Enqueue,
            Operation::Dequeue,
            Operation::IsFull,
            Operation::IsEmpty,
            Operation::Len,
            Operation::Capacity,
            Operation::Clear,
        ]
    }

    /// Whether the operation hands out copies of elements. Only `dequeue`
    /// does: the element it returns stays behind in its slot.
    pub open spec fn duplicates(self) -> bool {
        self is Dequeue
    }

    /// Whether the operation needs an element type that can be cloned.
    pub fn needs_clone(&self) -> (needed: bool)
        ensures
            needed == self.duplicates(),
    {
        match self {
            Operation::Dequeue => true,
            _ => false,
        }
    }
}

/// One generated method: the operation, who may call it, and whether it
/// demands that elements can be cloned.
#[derive(Debug)]
pub struct Method {
    pub operation: Operation,
    pub visibility: Visibility,
    pub needs_clone: bool,
}

/// The plan of an `impl` block: the type it is for, with its generic
/// parameters and `where` clause, the element type and capacity of the
/// buffer, and the methods.
#[derive(Debug)]
pub struct Implementation {
    pub name: String,
    pub generics: Vec<GenericParam>,
    pub where_clause: Option<String>,
    pub element_type: ElementType,
    pub capacity: usize,
    pub methods: Vec<Method>,
}

impl Implementation {
    /// Whether this is the plan for `input` with the given element type
    /// and capacity: the type's own name, generic parameters with their
    /// bounds and `where` clause, and every operation once, each as
    /// visible as the type, with the demand for cloning on `dequeue` alone.
    pub open spec fn binds(
        self,
        input: Declaration,
        element_type: ElementType,
        capacity: usize,
    ) -> bool {
        &&& self.name@ == input.name@
        &&& self.generics@ == input.generics@
        &&& self.where_clause == input.where_clause
        &&& self.element_type == element_type
        &&& self.capacity == capacity
        &&& self.methods@.len() == Operation::all().len()
        &&& forall|i: int|
            0 <= i < self.methods@.len() ==> #[trigger] self.methods@[i] == (Method {
                operation: Operation::all()[i],
                visibility: input.visibility,
                needs_clone: Operation::all()[i].duplicates(),
            })
    }
}

/// A method for `operation` that is as visible as `visibility` says.
fn method(operation: Operation, visibility: &Visibility) -> (planned: Method)
    ensures
        planned == (Method {
            operation,
            visibility: *visibility,
            needs_clone: operation.duplicates(),
        }),
{
    Method { operation, visibility: visibility.clone(), needs_clone: operation.needs_clone() }
}

/// Plans the `impl` block of the ring buffer that `input` declares.
pub fn generate_impl(input: &Declaration, element_type: &ElementType, capacity: usize) -> (plan:
    Implementation)
    ensures
        plan.binds(*input, *element_type, capacity),
{
    let mut generics: Vec<GenericParam> = Vec::new();
    let mut i: usize = 0;
    while i < input.generics.len()
        invariant
            i <= input.generics.len(),
            generics@ == input.generics@.take(i as int),
        decreases input.generics.len() - i,
    {
        generics.push(input.generics[i].clone());
        assert(input.generics@.take(i + 1) =~= input.generics@.take(i as int).push(
            input.generics@[i as int],
        ));
        i += 1;
    }
    assert(input.generics@.take(i as int) =~= input.generics@);
    let mut methods: Vec<Method> = Vec::new();
    methods.push(method(Operation::New, &input.visibility));
    methods.push(method(Operation::Enqueue, &input.visibility));
    methods.push(method(Operation::Dequeue, &input.visibility));
    methods.push(method(Operation::IsFull, &input.visibility));
    methods.push(method(Operation::IsEmpty, &input.visibility));
    methods.push(method(Operation::Len, &input.visibility));
    methods.push(method(Operation::Capacity, &input.visibility));
    methods.push(method(Operation::Clear, &input.visibility));
    let where_clause = match &input.where_clause {
        Some(clause) => Some(clause.clone()),
        None => None,
    };
    Implementation {
        name: input.name.clone(),
        generics,
        where_clause,
        element_type: element_type.clone(),
        capacity,
        methods,
    }
}

} // verus!
