use vstd::prelude::*;

use crate::http::{RequestTemplate, RequestTemplateView};

verus! {

/// An I/O operation that resolves a field.
pub enum IO {
    Http { req_template: RequestTemplate },
}

/// The resolver of a field.
pub enum IR {
    IO(IO),
}

/// The mathematical form of an [`IO`].
pub enum IOView {
    Http { req_template: RequestTemplateView },
}

/// The mathematical form of an [`IR`].
pub enum IRView {
    IO(IOView),
}

impl View for IR {
    type V = IRView;

    open spec fn view(&self) -> IRView {
        match self {
            IR::IO(IO::Http { req_template }) => IRView::IO(
                IOView::Http { req_template: req_template@ },
            ),
        }
    }
}

impl Clone for IR {
    fn clone(&self) -> (r: IR)
        ensures
            r@ == self@,
    {
        match self {
            IR::IO(IO::Http { req_template }) => IR::IO(
                IO::Http { req_template: req_template.clone() },
            ),
        }
    }
}

/// The mathematical form of an optional resolver.
pub open spec fn opt_ir_view(ir: Option<IR>) -> Option<IRView> {
    match ir {
        Some(i) => Some(i@),
        None => None,
    }
}

/// A copy of an optional resolver.
pub fn clone_opt_ir(ir: &Option<IR>) -> (r: Option<IR>)
    ensures
        opt_ir_view(r) == opt_ir_view(*ir),
{
    match ir {
        Some(i) => Some(i.clone()),
        None => None,
    }
}

} // verus!
