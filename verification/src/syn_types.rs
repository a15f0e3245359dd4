//! The `syn` types that parsing hands through on its way to the syntax
//! model. Each is opaque: nothing in the library looks inside one.
use vstd::prelude::*;

verus! {

/// `syn::File`, carried through conversion only.
#[verifier::external_type_specification]
#[verifier::external_body]
pub struct ExSynFile(syn::File);

/// `syn::Item`, carried through conversion only.
#[verifier::external_type_specification]
#[verifier::external_body]
pub struct ExSynItem(syn::Item);

/// `syn::ImplItem`, carried through conversion only.
#[verifier::external_type_specification]
#[verifier::external_body]
pub struct ExSynImplItem(syn::ImplItem);

/// `syn::Attribute`, carried through conversion only.
#[verifier::external_type_specification]
#[verifier::external_body]
pub struct ExSynAttribute(syn::Attribute);

/// `syn::Type`, carried through conversion only.
#[verifier::external_type_specification]
#[verifier::external_body]
pub struct ExSynType(syn::Type);

/// `syn::Block`, carried through conversion only.
#[verifier::external_type_specification]
#[verifier::external_body]
pub struct ExSynBlock(syn::Block);

/// `syn::Stmt`, carried through conversion only.
#[verifier::external_type_specification]
#[verifier::external_body]
pub struct ExSynStmt(syn::Stmt);

/// `syn::Expr`, carried through conversion only.
#[verifier::external_type_specification]
#[verifier::external_body]
pub struct ExSynExpr(syn::Expr);

} // verus!
