use vstd::prelude::*;

pub mod info;
pub mod pipeline;
pub mod render;
pub mod scene;
pub mod shader;
pub mod storage;
pub mod viewport;

verus! {

/// std's `RefCell`, carried through as an opaque value.
#[verifier::external_type_specification]
#[verifier::external_body]
#[verifier::reject_recursive_types(T)]
pub struct ExRefCell<T: ?Sized>(std::cell::RefCell<T>);

/// Relies on `RefCell::new`: wraps a value; nothing about the cell is used.
pub assume_specification<T>[ std::cell::RefCell::<T>::new ](value: T) -> std::cell::RefCell<T>;

/// Shorthand for a shared, interiorly mutable value.
pub type RcRcell<T> = std::rc::Rc<std::cell::RefCell<T>>;

/// Wraps `inner` for shared mutable access.
pub fn rc_rcell<T>(inner: T) -> (r: RcRcell<T>) {
    std::rc::Rc::new(std::cell::RefCell::new(inner))
}

} // verus!
