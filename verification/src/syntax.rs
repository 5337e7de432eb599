//! A declaration as the checks see it: the shape of a type declaration and
//! of the types its fields name, with the place of each part in the source.

use proc_macro2::Span;
use vstd::prelude::*;

verus! {

/// Who may use a declared item.
#[derive(Debug)]
pub enum Visibility {
    /// No marker: private to the enclosing module.
    Inherited,
    /// `pub`.
    Public,
    /// `pub(..)`, with the text between the parentheses.
    Restricted(String),
}

impl Clone for Visibility {
    fn clone(&self) -> (copy: Self)
        ensures
            copy == *self,
    {
        match self {
            Visibility::Inherited => Visibility::Inherited,
            Visibility::Public => Visibility::Public,
            Visibility::Restricted(scope) => Visibility::Restricted(scope.clone()),
        }
    }
}

/// What a generic parameter stands for.
#[derive(Debug, Clone, Copy, PartialEq, Eq, Structural)]
pub enum GenericKind {
    /// A type, `T`.
    Type,
    /// A lifetime, `'a`.
    Lifetime,
    /// A constant, `const N: usize`.
    Const,
}

/// One generic parameter of a declaration: its name and, as written, the
/// bounds of a type or lifetime, or the type of a constant.
#[derive(Debug)]
pub struct GenericParam {
    pub kind: GenericKind,
    pub name: String,
    pub bounds: String,
}

impl Clone for GenericParam {
    fn clone(&self) -> (copy: Self)
        ensures
            copy == *self,
    {
        GenericParam { kind: self.kind, name: self.name.clone(), bounds: self.bounds.clone() }
    }
}

/// A type that stands as an argument between angle brackets. The checks
/// never look inside it: it is kept as written, with its place.
#[derive(Debug)]
pub struct ElementType {
    pub source: String,
    pub span: Span,
}

impl Clone for ElementType {
    fn clone(&self) -> (copy: Self)
        ensures
            copy == *self,
    {
        ElementType { source: self.source.clone(), span: self.span }
    }
}

/// One argument between angle brackets.
#[derive(Debug)]
pub enum GenericArgument {
    /// A type.
    Type(ElementType),
    /// Anything else: a lifetime, a constant, a binding.
    Other,
}

/// What follows the name of a path segment.
#[derive(Debug)]
pub enum PathArguments {
    /// Nothing.
    Absent,
    /// `<..>`, with the arguments in order.
    AngleBracketed(Vec<GenericArgument>),
    /// `(..) -> ..`.
    Parenthesized,
}

/// One segment of a path: a name, its place and its arguments.
#[derive(Debug)]
pub struct PathSegment {
    pub ident: String,
    pub span: Span,
    pub arguments: PathArguments,
}

/// The shape of a field's type.
#[derive(Debug)]
pub enum TypeKind {
    /// A path such as `Vec<T>` or `std::vec::Vec<T>`, segment by segment.
    Path(Vec<PathSegment>),
    /// Any other type: a tuple, a reference, an array.
    Other,
}

/// The type of a field: its shape and its place.
#[derive(Debug)]
pub struct Type {
    pub kind: TypeKind,
    pub span: Span,
}

/// A named field, with its attributes as written.
#[derive(Debug)]
pub struct Field {
    pub attributes: Vec<String>,
    pub visibility: Visibility,
    pub name: String,
    pub ty: Type,
}

/// The fields of a struct.
#[derive(Debug)]
pub enum Fields {
    /// `{ name: Type, .. }`, in order.
    Named(Vec<Field>),
    /// `(Type, ..)`.
    Unnamed,
    /// No fields at all.
    Unit,
}

/// What kind of type a declaration declares.
#[derive(Debug)]
pub enum Data {
    Struct(Fields),
    Enum,
    Union,
}

/// A type declaration: its attributes as written, who may use it, its
/// name and the place of that name, its generic parameters, its `where`
/// clause as written, and what it declares.
#[derive(Debug)]
pub struct Declaration {
    pub attributes: Vec<String>,
    pub visibility: Visibility,
    pub name: String,
    pub span: Span,
    pub generics: Vec<GenericParam>,
    pub where_clause: Option<String>,
    pub data: Data,
}

impl Declaration {
    /// The named fields, if this declares a struct that has them.
    pub open spec fn named_fields(self) -> Option<Seq<Field>> {
        match self.data {
            Data::Struct(Fields::Named(fields)) => Some(fields@),
            _ => None,
        }
    }
}

/// The first of `fields` that is called `name`.
pub open spec fn first_named(fields: Seq<Field>, name: Seq<char>) -> Option<Field>
    decreases fields.len(),
{
    if fields.len() == 0 {
        None
    } else if fields[0].name@ == name {
        Some(fields[0])
    } else {
        first_named(fields.skip(1), name)
    }
}

/// `first_named` finds nothing exactly when no field bears the name, and
/// otherwise the field at the least index that does.
pub proof fn lemma_first_named(fields: Seq<Field>, name: Seq<char>)
    ensures
        first_named(fields, name) is None <==> forall|i: int|
            0 <= i < fields.len() ==> (#[trigger] fields[i]).name@ != name,
        first_named(fields, name) is Some ==> exists|i: int|
            0 <= i < fields.len() && first_named(fields, name) == Some(#[trigger] fields[i])
                && fields[i].name@ == name && forall|j: int|
                0 <= j < i ==> (#[trigger] fields[j]).name@ != name,
    decreases fields.len(),
{
    if fields.len() > 0 && fields[0].name@ != name {
        let rest = fields.skip(1);
        lemma_first_named(rest, name);
        assert forall|i: int| 0 <= i < rest.len() implies rest[i] == fields[i + 1] by {}
        if first_named(rest, name) is Some {
            let i = choose|i: int|
                0 <= i < rest.len() && first_named(rest, name) == Some(#[trigger] rest[i])
                    && rest[i].name@ == name && forall|j: int|
                    0 <= j < i ==> (#[trigger] rest[j]).name@ != name;
            assert(fields[i + 1] == rest[i]);
            assert forall|j: int| 0 <= j < i + 1 implies (#[trigger] fields[j]).name@ != name by {
                if j > 0 {
                    assert(fields[j] == rest[j - 1]);
                }
            }
        } else {
            assert forall|i: int| 0 <= i < fields.len() implies (#[trigger] fields[i]).name@
                != name by {
                if i > 0 {
                    assert(fields[i] == rest[i - 1]);
                }
            }
        }
    }
}

/// Whether `text` spells `expected`.
pub(crate) fn spells(text: &String, expected: &str) -> (same: bool)
    ensures
        same == (text@ == expected@),
{
    let wanted = String::from_str(expected);
    *text == wanted
}

} // verus!
