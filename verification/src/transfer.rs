//! Handles as arguments: what lowering one does to the handle table.

use crate::handles::{lookup, HandleError, HandleTable};
use crate::types::Passing;
use vstd::prelude::*;

verus! {

impl<T> HandleTable<T> {
    /// Lowers a handle argument of the type that `tag` stands for.
    ///
    /// The handle must name a live entry of that type. A borrowed handle
    /// leaves the table as it is: the entry stays for the callee to use
    /// until the call returns. An owning handle is taken at lowering time:
    /// its resource is handed out and the handle names nothing any more.
    pub fn lower_handle(&mut self, handle: u32, tag: u32, passing: Passing) -> (res: Result<
        Option<T>,
        HandleError,
    >)
        requires
            old(self).wf(),
        ensures
            final(self).wf(),
            final(self).slot_count() == old(self).slot_count(),
            match lookup(old(self)@, handle, tag) {
                Err(e) => {
                    &&& res == Err::<Option<T>, HandleError>(e)
                    &&& final(self)@ == old(self)@
                    &&& final(self).free_list() == old(self).free_list()
                },
                Ok(payload) => match passing {
                    Passing::Borrowed => {
                        &&& res == Ok::<Option<T>, HandleError>(None)
                        &&& final(self)@ == old(self)@
                        &&& final(self).free_list() == old(self).free_list()
                    },
                    Passing::Owning => {
                        &&& res == Ok::<Option<T>, HandleError>(Some(payload))
                        &&& final(self)@ == old(self)@.remove(handle)
                        &&& final(self).free_list() == old(self).free_list().push(handle)
                    },
                },
            },
    {
        match passing {
            Passing::Borrowed => {
                match self.borrow(handle, tag) {
                    Ok(_) => Ok(None),
                    Err(e) => Err(e),
                }
            },
            Passing::Owning => {
                match self.take(handle, tag) {
                    Ok(payload) => Ok(Some(payload)),
                    Err(e) => Err(e),
                }
            },
        }
    }
}

} // verus!
