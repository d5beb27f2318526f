use vstd::prelude::*;

verus! {

/// The error a registered function reports for its arguments.
#[derive(Clone, Debug, PartialEq, Eq)]
pub struct FunctionError {
    pub message: String,
}

impl View for FunctionError {
    type V = Seq<char>;

    open spec fn view(&self) -> Seq<char> {
        self.message@
    }
}

/// Why rendering a node failed.
#[derive(Clone, Debug, PartialEq, Eq)]
pub enum TemplateError {
    VariableNotFound(String),
    FunctionNotImplemented(String),
    Function(FunctionError),
}

/// The model of a render failure: names and messages as character sequences.
pub enum RenderFault {
    VariableNotFound(Seq<char>),
    FunctionNotImplemented(Seq<char>),
    Function(Seq<char>),
}

impl View for TemplateError {
    type V = RenderFault;

    open spec fn view(&self) -> RenderFault {
        match self {
            TemplateError::VariableNotFound(n) => RenderFault::VariableNotFound(n@),
            TemplateError::FunctionNotImplemented(n) => RenderFault::FunctionNotImplemented(n@),
            TemplateError::Function(e) => RenderFault::Function(e@),
        }
    }
}

} // verus!
