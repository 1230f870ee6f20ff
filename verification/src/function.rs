//! Functions of the described API.
use vstd::prelude::*;
use vstd::string::StringExecFns;
use crate::expr::{Expression, ExpressionView};
use crate::typ::{Type, TypeView, clone_types, types_view};

verus! {

/// The type of a parameter.  A call has arguments; a function has
/// parameters.
pub type Parameter = Type;

/// An argument of a call.
#[derive(Debug)]
pub struct Argument {
    pub expr: Expression,
}

impl View for Argument {
    type V = ExpressionView;

    open spec fn view(&self) -> ExpressionView {
        self.expr@
    }
}

impl Clone for Argument {
    fn clone(&self) -> (copy: Argument)
        ensures
            copy@ == self@,
    {
        Argument { expr: self.expr.clone() }
    }
}

impl Argument {
    pub fn new(expression: &Expression) -> (arg: Argument)
        ensures
            arg@ == expression@,
    {
        Argument { expr: expression.clone() }
    }

    /// The text of the argument at its place in a call.
    pub fn codegen(&self) -> (text: String)
        ensures
            text@ == self@.text(),
    {
        self.expr.text()
    }
}

/// The type of what a function returns.
pub type ReturnType = Type;

/// A function: its name, the type it returns, the types of its parameters
/// and, where it is called, the arguments of the call.
#[derive(Debug)]
pub struct Function {
    pub retval: ReturnType,
    pub arguments: Vec<Argument>,
    pub parameters: Vec<Parameter>,
    pub name: String,
}

/// The mathematical value of a [`Function`].
pub struct FunctionView {
    pub retval: TypeView,
    pub arguments: Seq<ExpressionView>,
    pub parameters: Seq<TypeView>,
    pub name: Seq<char>,
}

/// The mathematical values of a list of arguments.
pub open spec fn arguments_view(args: Seq<Argument>) -> Seq<ExpressionView> {
    Seq::new(args.len(), |i: int| args[i]@)
}

/// The types of a list of expressions.
pub open spec fn types_of(args: Seq<ExpressionView>) -> Seq<TypeView> {
    Seq::new(args.len(), |i: int| args[i].ty)
}

impl View for Function {
    type V = FunctionView;

    open spec fn view(&self) -> FunctionView {
        FunctionView {
            retval: self.retval@,
            arguments: arguments_view(self.arguments@),
            parameters: types_view(self.parameters@),
            name: self.name@,
        }
    }
}

impl Clone for Function {
    fn clone(&self) -> (copy: Function)
        ensures
            copy@ == self@,
    {
        let mut arguments: Vec<Argument> = Vec::new();
        let mut i: usize = 0;
        while i < self.arguments.len()
            invariant
                i <= self.arguments.len(),
                arguments.len() == i,
                forall|k: int| 0 <= k < i ==> arguments@[k]@ == self.arguments@[k]@,
            decreases self.arguments.len() - i,
        {
            arguments.push(self.arguments[i].clone());
            i += 1;
        }
        assert(arguments_view(arguments@) =~= arguments_view(self.arguments@));
        Function {
            retval: self.retval.clone(),
            arguments,
            parameters: clone_types(&self.parameters),
            name: self.name.clone(),
        }
    }
}

impl Function {
    /// The function `nm` as it is called with `args`: its parameters have
    /// the types of the arguments.
    pub fn new(nm: &str, rettype: &ReturnType, args: &Vec<Argument>) -> (f: Function)
        ensures
            f@ == (FunctionView {
                retval: rettype@,
                arguments: arguments_view(args@),
                parameters: types_of(arguments_view(args@)),
                name: nm@,
            }),
    {
        let mut arguments: Vec<Argument> = Vec::new();
        let mut parameters: Vec<Parameter> = Vec::new();
        let mut i: usize = 0;
        while i < args.len()
            invariant
                i <= args.len(),
                arguments.len() == i,
                parameters.len() == i,
                forall|k: int| 0 <= k < i ==> arguments@[k]@ == args@[k]@,
                forall|k: int| 0 <= k < i ==> parameters@[k]@ == args@[k]@.ty,
            decreases args.len() - i,
        {
            arguments.push(args[i].clone());
            parameters.push(args[i].expr.extype());
            i += 1;
        }
        assert(arguments_view(arguments@) =~= arguments_view(args@));
        assert(types_view(parameters@) =~= types_of(arguments_view(args@)));
        Function { name: String::from_str(nm), retval: rettype.clone(), arguments, parameters }
    }

    /// The function `nm` as it is declared, with the types `pm` of its
    /// parameters and no arguments.
    pub fn param(nm: &str, rettype: &ReturnType, pm: &Vec<Parameter>) -> (f: Function)
        ensures
            f@ == (FunctionView {
                retval: rettype@,
                arguments: Seq::empty(),
                parameters: types_view(pm@),
                name: nm@,
            }),
    {
        let f = Function {
            name: String::from_str(nm),
            retval: rettype.clone(),
            arguments: Vec::new(),
            parameters: clone_types(pm),
        };
        assert(arguments_view(f.arguments@) =~= Seq::empty());
        f
    }
}

} // verus!
