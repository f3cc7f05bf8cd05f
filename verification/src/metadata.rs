//! Source metadata of the surrounding compiler.
//!
//! The pass never looks inside these values. It moves them from the tree it
//! consumes into the tree it builds, so to the verifier each of them is an
//! opaque value that can only be compared for identity.
use vstd::prelude::*;

verus! {

/// `leo_span::Span`: the source region a node was parsed from.
#[verifier::external_type_specification]
#[verifier::external_body]
pub struct ExSpan(leo_span::Span);

/// `leo_ast::Type`: a declared type.
#[verifier::external_type_specification]
#[verifier::external_body]
pub struct ExType(leo_ast::Type);

/// `leo_ast::Mode`: the visibility of an input or a member.
#[verifier::external_type_specification]
#[verifier::external_body]
pub struct ExMode(leo_ast::Mode);

/// `leo_ast::Annotation`: an annotation on a function.
#[verifier::external_type_specification]
#[verifier::external_body]
pub struct ExAnnotation(leo_ast::Annotation);

/// `leo_ast::Variant`: how a function is called.
#[verifier::external_type_specification]
#[verifier::external_body]
pub struct ExVariant(leo_ast::Variant);

/// `leo_ast::Output`: a declared output of a function.
#[verifier::external_type_specification]
#[verifier::external_body]
pub struct ExOutput(leo_ast::Output);

/// `leo_ast::Mapping`: a declared key-value store.
#[verifier::external_type_specification]
#[verifier::external_body]
pub struct ExMapping(leo_ast::Mapping);

/// `leo_ast::ProgramId`: the name and network of a program scope.
#[verifier::external_type_specification]
#[verifier::external_body]
pub struct ExProgramId(leo_ast::ProgramId);

/// `leo_ast::Literal`: a literal value in an expression.
#[verifier::external_type_specification]
#[verifier::external_body]
pub struct ExLiteral(leo_ast::Literal);

/// `leo_ast::UnaryOperation`: the operator of a unary expression.
#[verifier::external_type_specification]
#[verifier::external_body]
pub struct ExUnaryOperation(leo_ast::UnaryOperation);

/// `leo_ast::BinaryOperation`: the operator of a binary expression.
#[verifier::external_type_specification]
#[verifier::external_body]
pub struct ExBinaryOperation(leo_ast::BinaryOperation);

/// `leo_ast::DeclarationType`: whether a definition is `let` or `const`.
#[verifier::external_type_specification]
#[verifier::external_body]
pub struct ExDeclarationType(leo_ast::DeclarationType);

/// `indexmap::IndexMap`: a hash map that keeps its entries in insertion order.
#[verifier::external_type_specification]
#[verifier::external_body]
#[verifier::reject_recursive_types(K)]
#[verifier::reject_recursive_types(V)]
#[verifier::reject_recursive_types(S)]
pub struct ExIndexMap<K, V, S>(indexmap::IndexMap<K, V, S>);

/// Copies a literal with `<leo_ast::Literal as Clone>::clone`, which is
/// derived: the copy is the same literal.
#[verifier::external_body]
pub(crate) fn clone_literal(literal: &leo_ast::Literal) -> (copy: leo_ast::Literal)
    ensures
        copy == *literal,
{
    literal.clone()
}

/// Copies a type with `<leo_ast::Type as Clone>::clone`, which is derived:
/// the copy is the same type.
#[verifier::external_body]
pub(crate) fn clone_type(declared: &leo_ast::Type) -> (copy: leo_ast::Type)
    ensures
        copy == *declared,
{
    declared.clone()
}

} // verus!
