use vstd::prelude::*;
use vstd::std_specs::cmp::PartialEqSpec;

pub mod value;
pub mod text;
pub mod map;
pub mod wrapping_type;
pub mod http;
pub mod config;
pub mod ir;
pub mod blueprint;
pub mod request_context;
pub mod eval_ctx;
pub mod jit;
pub mod sort;
pub mod query_info;
pub mod type_info;
pub mod introspection;
pub mod loaders;
pub mod resolve;
pub mod directive;
pub mod from_doc;
pub mod request;
pub mod template;

verus! {

/// Whether a value is the default one of its type: it equals what
/// `T::default` gives.
pub fn is_default<T: Default + Eq>(val: &T) -> (r: bool)
    ensures
        exists|d: T| #[trigger] call_ensures(T::default, (), d) && (T::obeys_eq_spec() ==> r == val.eq_spec(&d)),
{
    let make = T::default;
    let d = make();
    assert(call_ensures(T::default, (), d));
    *val == d
}

} // verus!
