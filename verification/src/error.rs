//! The diagnostics a check produces: one [`TypingError`] per finding, each a
//! kind with its context and the source span it points at.  No error ever
//! stops a walk; they are collected and returned beside the best-effort
//! types.

use vstd::prelude::*;

use crate::ty::SpecBasic;
use crate::ty::Ty;
use crate::views::ty_view;

verus! {

/// A half-open range of byte offsets into the module's source text.
#[derive(Clone, Copy, PartialEq, Eq, Structural)]
pub struct Span {
    pub begin: u32,
    pub end: u32,
}

/// Ghost model of one diagnostic kind.
#[verifier::ext_equal]
pub enum SpecErrKind {
    /// Attribute access on a type known not to have that attribute.
    NotSupportedAttribute { attr: Seq<char> },
    /// A call applied to a type with no callable facet.
    NotCallable,
    /// More positional arguments than the signature can take.
    TooManyPositionalArguments,
    /// A required parameter that no argument filled.
    MissingRequiredArgument { param: Seq<char> },
    /// A named argument that no parameter and no `**kwargs` can take.
    UnexpectedKeywordArgument { name: Seq<char> },
    /// An argument whose type is not below the parameter's declared type.
    ArgumentTypeMismatch { param: Seq<char>, expected: Seq<SpecBasic>, found: Seq<SpecBasic> },
    /// An operator applied to operand types it is not known to take.
    IncompatibleBinOp { op: BinOp, left: Seq<SpecBasic>, right: Seq<SpecBasic> },
    /// An assignment whose value is not below the annotated type.
    IncompatibleAssignment { expected: Seq<SpecBasic>, found: Seq<SpecBasic> },
    /// A reference to a name that is not in scope.
    NotInScope { name: Seq<char> },
}

/// A binary operator of the checked language.
#[derive(Clone, Copy, Debug, PartialEq, Eq, Structural)]
pub enum BinOp {
    Add,
    Sub,
    Mul,
    Div,
    Percent,
    Less,
    Equal,
    In,
}

/// One diagnostic kind, with its context.
pub enum TypingErrorKind {
    /// Attribute access on a type known not to have that attribute.
    NotSupportedAttribute { attr: String },
    /// A call applied to a type with no callable facet.
    NotCallable,
    /// More positional arguments than the signature can take.
    TooManyPositionalArguments,
    /// A required parameter that no argument filled.
    MissingRequiredArgument { param: String },
    /// A named argument that no parameter and no `**kwargs` can take.
    UnexpectedKeywordArgument { name: String },
    /// An argument whose type is not below the parameter's declared type.
    ArgumentTypeMismatch { param: String, expected: Ty, found: Ty },
    /// An operator applied to operand types it is not known to take.
    IncompatibleBinOp { op: BinOp, left: Ty, right: Ty },
    /// An assignment whose value is not below the annotated type.
    IncompatibleAssignment { expected: Ty, found: Ty },
    /// A reference to a name that is not in scope.
    NotInScope { name: String },
}

/// One diagnostic: its kind and the source span it points at.
pub struct TypingError {
    pub kind: TypingErrorKind,
    pub span: Span,
}

/// Ghost model of one diagnostic.
#[verifier::ext_equal]
pub struct SpecErr {
    pub kind: SpecErrKind,
    pub span: Span,
}

pub open spec fn kind_view(k: TypingErrorKind) -> SpecErrKind {
    match k {
        TypingErrorKind::NotSupportedAttribute { attr } => SpecErrKind::NotSupportedAttribute {
            attr: attr@,
        },
        TypingErrorKind::NotCallable => SpecErrKind::NotCallable,
        TypingErrorKind::TooManyPositionalArguments => SpecErrKind::TooManyPositionalArguments,
        TypingErrorKind::MissingRequiredArgument { param } => SpecErrKind::MissingRequiredArgument {
            param: param@,
        },
        TypingErrorKind::UnexpectedKeywordArgument { name } => SpecErrKind::UnexpectedKeywordArgument {
            name: name@,
        },
        TypingErrorKind::ArgumentTypeMismatch { param, expected, found } => SpecErrKind::ArgumentTypeMismatch {
            param: param@,
            expected: ty_view(expected),
            found: ty_view(found),
        },
        TypingErrorKind::IncompatibleBinOp { op, left, right } => SpecErrKind::IncompatibleBinOp {
            op,
            left: ty_view(left),
            right: ty_view(right),
        },
        TypingErrorKind::IncompatibleAssignment { expected, found } => SpecErrKind::IncompatibleAssignment {
            expected: ty_view(expected),
            found: ty_view(found),
        },
        TypingErrorKind::NotInScope { name } => SpecErrKind::NotInScope { name: name@ },
    }
}

impl View for TypingErrorKind {
    type V = SpecErrKind;

    open spec fn view(&self) -> SpecErrKind {
        kind_view(*self)
    }
}

impl View for TypingError {
    type V = SpecErr;

    open spec fn view(&self) -> SpecErr {
        SpecErr { kind: kind_view(self.kind), span: self.span }
    }
}

/// The model of a sequence of diagnostic kinds, element by element.
pub open spec fn kinds_view(s: Seq<TypingErrorKind>) -> Seq<SpecErrKind>
    decreases s,
{
    if s.len() == 0 {
        Seq::empty()
    } else {
        kinds_view(s.drop_last()).push(kind_view(s.last()))
    }
}

/// The model of a sequence of diagnostics, element by element.
pub open spec fn errs_view(s: Seq<TypingError>) -> Seq<SpecErr>
    decreases s,
{
    if s.len() == 0 {
        Seq::empty()
    } else {
        errs_view(s.drop_last()).push(
            SpecErr { kind: kind_view(s.last().kind), span: s.last().span },
        )
    }
}

pub broadcast proof fn kinds_view_len(s: Seq<TypingErrorKind>)
    ensures
        (#[trigger] kinds_view(s)).len() == s.len(),
    decreases s.len(),
{
    if s.len() > 0 {
        kinds_view_len(s.drop_last());
    }
}

pub broadcast proof fn kinds_view_index(s: Seq<TypingErrorKind>, i: int)
    requires
        0 <= i < s.len(),
    ensures
        #[trigger] kinds_view(s)[i] == kind_view(s[i]),
    decreases s.len(),
{
    kinds_view_len(s);
    if i < s.len() - 1 {
        kinds_view_index(s.drop_last(), i);
    }
}

pub broadcast proof fn errs_view_len(s: Seq<TypingError>)
    ensures
        (#[trigger] errs_view(s)).len() == s.len(),
    decreases s.len(),
{
    if s.len() > 0 {
        errs_view_len(s.drop_last());
    }
}

pub broadcast proof fn errs_view_index(s: Seq<TypingError>, i: int)
    requires
        0 <= i < s.len(),
    ensures
        #[trigger] errs_view(s)[i] == (SpecErr { kind: kind_view(s[i].kind), span: s[i].span }),
    decreases s.len(),
{
    errs_view_len(s);
    if i < s.len() - 1 {
        errs_view_index(s.drop_last(), i);
    }
}

} // verus!
