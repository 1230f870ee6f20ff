//! Expressions that stand as arguments of a call.
use vstd::prelude::*;
use vstd::string::StringExecFns;
use crate::typ::{Type, TypeView};
use crate::variable::ScalarOp;

verus! {

/// A variable at a place of use: its name, the transformation that this
/// use needs, and the type that the use has.
#[derive(Debug)]
pub struct Expression {
    pub name: String,
    pub op: ScalarOp,
    pub ty: Type,
}

/// The mathematical value of an [`Expression`].
pub struct ExpressionView {
    pub name: Seq<char>,
    pub op: ScalarOp,
    pub ty: TypeView,
}

impl ExpressionView {
    /// The variable rendered through its transformation: `*name` for a
    /// dereference, `&name` for address-of, the bare name otherwise.
    pub open spec fn text(self) -> Seq<char> {
        self.op.text() + self.name
    }
}

impl View for Expression {
    type V = ExpressionView;

    open spec fn view(&self) -> ExpressionView {
        ExpressionView { name: self.name@, op: self.op, ty: self.ty@ }
    }
}

impl Clone for Expression {
    fn clone(&self) -> (copy: Expression)
        ensures
            copy@ == self@,
    {
        Expression { name: self.name.clone(), op: self.op, ty: self.ty.clone() }
    }
}

impl Expression {
    /// A use of the variable `name`, of type `ty`, through `op`.
    pub fn new(name: &str, op: ScalarOp, ty: &Type) -> (e: Expression)
        ensures
            e@ == (ExpressionView { name: name@, op: op, ty: ty@ }),
    {
        Expression { name: String::from_str(name), op, ty: ty.clone() }
    }

    /// The type of the expression.
    pub fn extype(&self) -> (ty: Type)
        ensures
            ty@ == self@.ty,
    {
        self.ty.clone()
    }

    /// The text of the expression.
    pub fn text(&self) -> (text: String)
        ensures
            text@ == self@.text(),
    {
        let mut text = self.op.to_string();
        text.append(self.name.as_str());
        text
    }
}

} // verus!
