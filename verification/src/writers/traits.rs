//! The trait every output writer implements.

use vstd::prelude::*;
use crate::store::{Store, XliffError};
use crate::writers::xliff12::{decl_event, events_of_store};
use crate::xml::rendered;

verus! {

/// Xliff writer able to convert a translation store into a conforming
/// output document.
pub trait XliffWriter {
    /// Creates a byte array from the contents of the provided store: the
    /// document declaration followed by the store's element events, in
    /// order, rendered by the emitter.
    fn write(store: &Store) -> (r: Result<Vec<u8>, XliffError>)
        ensures
            (r matches Ok(out) && out@ == rendered(
                seq![decl_event()] + events_of_store(store@),
            )),
    ;
}

} // verus!
