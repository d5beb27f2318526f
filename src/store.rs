use vstd::prelude::*;
use dashmap::DashMap;
use crate::error::FunctionError;

verus! {

/// A function that templates can call: it maps rendered arguments to text. The callable is
/// kept out of Verus's sight, which takes neither function pointers nor `dyn Fn + Send + Sync`.
#[verifier::external_body]
pub struct TemplateFunction {
    call: Box<dyn Fn(&[String]) -> Result<String, FunctionError> + Send + Sync>,
}

impl TemplateFunction {
    /// Holds the callable `f` so that a registry can store it.
    #[verifier::external_body]
    pub fn new<F>(f: F) -> (r: TemplateFunction)
        where
            F: Fn(&[String]) -> Result<String, FunctionError> + Send + Sync + 'static,
    {
        TemplateFunction { call: Box::new(f) }
    }
}

#[verifier::external_type_specification]
#[verifier::external_body]
#[verifier::reject_recursive_types(K)]
#[verifier::reject_recursive_types(V)]
#[verifier::reject_recursive_types(S)]
pub struct ExDashMap<K, V, S>(DashMap<K, V, S>);

/// Relies on DashMap::get to read the value bound to `name` at the moment of the call; other
/// threads may change the map at any time, so nothing is promised of what comes back.
#[verifier::external_body]
pub(crate) fn lookup_variable(vars: &DashMap<String, String>, name: &String) -> (r: Option<String>)
{
    vars.get(name).map(|v| v.value().clone())
}

/// Relies on DashMap::get to find the function stored under `name` at the moment of the call,
/// which is then called on `args`; a registered function is arbitrary code, so nothing is
/// promised of what comes back.
#[verifier::external_body]
pub(crate) fn call_function(
    funcs: &DashMap<String, TemplateFunction>,
    name: &String,
    args: &Vec<String>,
) -> (r: Option<Result<String, FunctionError>>)
{
    funcs.get(name).map(|f| (f.value().call)(args.as_slice()))
}

/// The texts that a sequence of strings holds.
pub open spec fn texts(v: Seq<String>) -> Seq<Seq<char>> {
    v.map_values(|s: String| s@)
}

} // verus!
