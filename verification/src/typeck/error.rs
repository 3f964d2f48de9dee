//! Type errors.
use vstd::prelude::*;

use super::display::{constraint_text, ty_text};
use super::ty::{Constraint, Ty};
use crate::span::Span;
use crate::text::{decimal_text, usize_text};

verus! {

/// A type error at a span.
#[derive(Debug, PartialEq, Eq)]
pub struct TypeError {
    pub kind: TypeErrorKind,
    pub span: Span,
}

impl TypeError {
    /// An error of the given kind at the given span.
    pub fn new(kind: TypeErrorKind, span: Span) -> (r: TypeError)
        ensures
            r.kind == kind,
            r.span == span,
    {
        TypeError { kind, span }
    }
}

/// The kinds of type errors.
#[derive(Debug, PartialEq, Eq)]
pub enum TypeErrorKind {
    /// Two types failed to unify.
    Mismatch { expected: Ty, found: Ty },
    /// A variable would have to contain itself (an infinite type).
    OccursCheck { var: String, ty: Ty },
    /// An unknown type constructor at a reference site.
    UnknownType { name: String },
    /// An unknown class name.
    UnknownClass { name: String },
    /// A constraint no instance satisfies.
    UnresolvedConstraint { constraint: Constraint },
    /// A constraint on a variable the body does not mention.
    AmbiguousConstraint { constraint: Constraint },
    /// A kind mismatch in a type expression.
    KindMismatch { expected: String, found: String },
    /// A record without the requested field.
    MissingField { field: String, ty: Ty },
    /// A constructor applied to the wrong number of arguments.
    CtorArity { ctor: String, expected: usize, found: usize },
    /// A record pattern naming a field the type lacks.
    RecordPatternField { field: String, ty: Ty },
    /// An instance whose class and head type both live elsewhere.
    OrphanInstance { class: String },
    /// Two instances with overlapping heads.
    OverlappingInstance { class: String, head: Ty },
    /// An instance head outside the admitted shape.
    InvalidInstanceHead { class: String, head: Ty },
    /// A superclass context on a variable other than the class's own.
    InvalidSuperclassContext { class: String, expected: String, got: String },
    /// A `do` block ending in a bind or `let`.
    InvalidDoFinalStmt,
    /// An empty `do` block.
    EmptyDo,
    /// Another error, with its message.
    Other { msg: String },
}


impl TypeErrorKind {
    /// What the error says.
    pub open spec fn message_text(self) -> Seq<char> {
        match self {
            TypeErrorKind::Mismatch { expected, found } => "expected `"@ + ty_text(expected, 0)
                + "`, found `"@ + ty_text(found, 0) + "`"@,
            TypeErrorKind::OccursCheck { var, ty } => "occurs check: `"@ + var@ + "` occurs in `"@
                + ty_text(ty, 0) + "`"@,
            TypeErrorKind::UnknownType { name } => "unknown type `"@ + name@ + "`"@,
            TypeErrorKind::UnknownClass { name } => "unknown class `"@ + name@ + "`"@,
            TypeErrorKind::UnresolvedConstraint { constraint } => "no instance for `"@
                + constraint_text(constraint) + "`"@,
            TypeErrorKind::AmbiguousConstraint { constraint } => "ambiguous constraint `"@
                + constraint_text(constraint) + "`"@,
            TypeErrorKind::KindMismatch { expected, found } => "kind mismatch: expected `"@
                + expected@ + "`, found `"@ + found@ + "`"@,
            TypeErrorKind::MissingField { field, ty } => "record `"@ + ty_text(ty, 0)
                + "` has no field `"@ + field@ + "`"@,
            TypeErrorKind::CtorArity { ctor, expected, found } => "constructor `"@ + ctor@
                + "` expects "@ + decimal_text(expected as nat) + " arg(s) but was given "@
                + decimal_text(found as nat),
            TypeErrorKind::RecordPatternField { field, ty } => "record pattern field `"@ + field@
                + "` not in `"@ + ty_text(ty, 0) + "`"@,
            TypeErrorKind::OrphanInstance { class } => "orphan instance `"@ + class@
                + "` not admitted"@,
            TypeErrorKind::OverlappingInstance { class, head } => "overlapping instance `"@ + class@
                + " "@ + ty_text(head, 0) + "`"@,
            TypeErrorKind::InvalidInstanceHead { class, head } => "instance head `"@ + class@ + " "@
                + ty_text(head, 0) + "` outside Haskell-98 shape"@,
            TypeErrorKind::InvalidSuperclassContext { class, expected, got } =>
                "superclass context of `"@ + class@ + "` must constrain its own type variable `"@
                + expected@ + "`, got "@ + got@,
            TypeErrorKind::InvalidDoFinalStmt => "final `do` statement must be an expression"@,
            TypeErrorKind::EmptyDo => "empty `do` block"@,
            TypeErrorKind::Other { msg } => msg@,
        }
    }

    /// What the error says.
    pub fn message(&self) -> (r: String)
        ensures
            r@ == self.message_text(),
    {
        proof {
            reveal_strlit("expected `");
            reveal_strlit("`, found `");
            reveal_strlit("`");
            reveal_strlit("occurs check: `");
            reveal_strlit("` occurs in `");
            reveal_strlit("unknown type `");
            reveal_strlit("unknown class `");
            reveal_strlit("no instance for `");
            reveal_strlit("ambiguous constraint `");
            reveal_strlit("kind mismatch: expected `");
            reveal_strlit("record `");
            reveal_strlit("` has no field `");
            reveal_strlit("constructor `");
            reveal_strlit("` expects ");
            reveal_strlit(" arg(s) but was given ");
            reveal_strlit("record pattern field `");
            reveal_strlit("` not in `");
            reveal_strlit("orphan instance `");
            reveal_strlit("` not admitted");
            reveal_strlit("overlapping instance `");
            reveal_strlit(" ");
            reveal_strlit("instance head `");
            reveal_strlit("` outside Haskell-98 shape");
            reveal_strlit("superclass context of `");
            reveal_strlit("` must constrain its own type variable `");
            reveal_strlit("`, got ");
            reveal_strlit("final `do` statement must be an expression");
            reveal_strlit("empty `do` block");
        }
        let mut r = String::new();
        match self {
            TypeErrorKind::Mismatch { expected, found } => {
                r.append("expected `");
                r.append(expected.display().as_str());
                r.append("`, found `");
                r.append(found.display().as_str());
                r.append("`");
            },
            TypeErrorKind::OccursCheck { var, ty } => {
                r.append("occurs check: `");
                r.append(var.as_str());
                r.append("` occurs in `");
                r.append(ty.display().as_str());
                r.append("`");
            },
            TypeErrorKind::UnknownType { name } => {
                r.append("unknown type `");
                r.append(name.as_str());
                r.append("`");
            },
            TypeErrorKind::UnknownClass { name } => {
                r.append("unknown class `");
                r.append(name.as_str());
                r.append("`");
            },
            TypeErrorKind::UnresolvedConstraint { constraint } => {
                r.append("no instance for `");
                r.append(constraint.display().as_str());
                r.append("`");
            },
            TypeErrorKind::AmbiguousConstraint { constraint } => {
                r.append("ambiguous constraint `");
                r.append(constraint.display().as_str());
                r.append("`");
            },
            TypeErrorKind::KindMismatch { expected, found } => {
                r.append("kind mismatch: expected `");
                r.append(expected.as_str());
                r.append("`, found `");
                r.append(found.as_str());
                r.append("`");
            },
            TypeErrorKind::MissingField { field, ty } => {
                r.append("record `");
                r.append(ty.display().as_str());
                r.append("` has no field `");
                r.append(field.as_str());
                r.append("`");
            },
            TypeErrorKind::CtorArity { ctor, expected, found } => {
                r.append("constructor `");
                r.append(ctor.as_str());
                r.append("` expects ");
                r.append(usize_text(*expected).as_str());
                r.append(" arg(s) but was given ");
                r.append(usize_text(*found).as_str());
            },
            TypeErrorKind::RecordPatternField { field, ty } => {
                r.append("record pattern field `");
                r.append(field.as_str());
                r.append("` not in `");
                r.append(ty.display().as_str());
                r.append("`");
            },
            TypeErrorKind::OrphanInstance { class } => {
                r.append("orphan instance `");
                r.append(class.as_str());
                r.append("` not admitted");
            },
            TypeErrorKind::OverlappingInstance { class, head } => {
                r.append("overlapping instance `");
                r.append(class.as_str());
                r.append(" ");
                r.append(head.display().as_str());
                r.append("`");
            },
            TypeErrorKind::InvalidInstanceHead { class, head } => {
                r.append("instance head `");
                r.append(class.as_str());
                r.append(" ");
                r.append(head.display().as_str());
                r.append("` outside Haskell-98 shape");
            },
            TypeErrorKind::InvalidSuperclassContext { class, expected, got } => {
                r.append("superclass context of `");
                r.append(class.as_str());
                r.append("` must constrain its own type variable `");
                r.append(expected.as_str());
                r.append("`, got ");
                r.append(got.as_str());
            },
            TypeErrorKind::InvalidDoFinalStmt => {
                r.append("final `do` statement must be an expression");
            },
            TypeErrorKind::EmptyDo => {
                r.append("empty `do` block");
            },
            TypeErrorKind::Other { msg } => {
                r.append(msg.as_str());
            },
        }
        assert(r@ =~= self.message_text());
        r
    }
}

impl TypeError {
    /// The diagnostic line: where, then what.
    pub open spec fn render_text(self) -> Seq<char> {
        "type error at bytes "@ + decimal_text(self.span.start as nat) + ".."@ + decimal_text(
            self.span.end as nat,
        ) + ": "@ + self.kind.message_text()
    }

    /// The diagnostic line: where, then what.
    pub fn render(&self) -> (r: String)
        ensures
            r@ == self.render_text(),
    {
        proof {
            reveal_strlit("type error at bytes ");
            reveal_strlit("..");
            reveal_strlit(": ");
        }
        let mut r = String::new();
        r.append("type error at bytes ");
        r.append(usize_text(self.span.start).as_str());
        r.append("..");
        r.append(usize_text(self.span.end).as_str());
        r.append(": ");
        r.append(self.kind.message().as_str());
        assert(r@ =~= self.render_text());
        r
    }
}

} // verus!
