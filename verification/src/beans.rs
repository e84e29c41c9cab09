//! Building a value by name from the factory registered for its input and output types.
//! Which factory serves a pair of types is found by the caller (it goes by the types'
//! identities at run time); what follows from the lookup is here.
use vstd::prelude::*;

use crate::tooling::TypedBeanFactory;

verus! {

/// Why a value could not be built.
#[derive(Debug, Clone, Copy, PartialEq, Eq, Structural)]
pub enum BeanError {
    /// No factory is registered for the input and output types.
    FactoryNotFound,
    /// The factory has no constructor of the name asked for.
    BeanNotFound,
}

/// The factory found for a pair of types (a shared handle to it), or `FactoryNotFound`.
pub fn factory<F>(found: Option<F>) -> (r: Result<F, BeanError>)
    ensures
        match found {
            Some(f) => r == Ok::<F, BeanError>(f),
            None => r == Err::<F, BeanError>(BeanError::FactoryNotFound),
        },
{
    match found {
        Some(f) => Ok(f),
        None => Err(BeanError::FactoryNotFound),
    }
}

/// Builds the value named `bean` from `input` with the factory found for its types:
/// `FactoryNotFound` when there is none, `BeanNotFound` when it has no such name.
pub fn create<I: 'static, O: 'static>(
    found: Option<&TypedBeanFactory<I, O>>,
    bean: &str,
    input: I,
) -> (r: Result<O, BeanError>)
    requires
        found matches Some(f) ==> f.wf(),
    ensures
        match found {
            None => r == Err::<O, BeanError>(BeanError::FactoryNotFound),
            Some(f) => if f.names().contains(bean@) {
                r matches Ok(o) && f.handles()[f.names().index_of(bean@)].builds(input, o)
            } else {
                r == Err::<O, BeanError>(BeanError::BeanNotFound)
            },
        },
{
    match found {
        None => Err(BeanError::FactoryNotFound),
        Some(f) => match f.create(bean, input) {
            Some(o) => Ok(o),
            None => Err(BeanError::BeanNotFound),
        },
    }
}

} // verus!
