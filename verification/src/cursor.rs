//! Navigation and position persistence: advancing or retreating the current
//! index by one page (clamped at the ends), and the one-shot scroll
//! heuristic that persists the position near the end of the last document in
//! list mode. Each step says exactly when the new position must be written
//! to durable storage, and with which token; the caller performs the write.

use vstd::prelude::*;
use crate::index::PageIndex;
use crate::page::{format_token, spec_format};

verus! {

impl PageIndex {
    /// Whether a step onto `pos` persists the position: every retreat does,
    /// and every advance except onto the synthetic last slot in list mode.
    pub open spec fn persists_at(self, pos: int) -> bool {
        !self.is_list || pos != self.pages@.len() - 1
    }

    /// Advance one page, clamped at the end. Returns whether the position
    /// moved, and the token to persist if persistence is owed.
    pub fn advance(&mut self) -> (r: (bool, Option<Vec<u8>>))
        requires
            old(self).wf(),
        ensures
            final(self).wf(),
            final(self).pages@ == old(self).pages@,
            final(self).is_list == old(self).is_list,
            old(self).current + 1 < old(self).pages@.len() ==> {
                &&& final(self).current == old(self).current + 1
                &&& r.0 == true
                &&& if old(self).persists_at(old(self).current + 1) {
                    &&& final(self).dont_save == false
                    &&& r.1 is Some
                    &&& r.1->0@ == spec_format(final(self).current_key())
                } else {
                    &&& final(self).dont_save == old(self).dont_save
                    &&& r.1 is None
                }
            },
            old(self).current + 1 >= old(self).pages@.len() ==> *final(self) == *old(self) && r.0
                == false && r.1 is None,
    {
        if self.current < self.pages.len() - 1 {
            self.current = self.current + 1;
            if !self.is_list || self.current != self.pages.len() - 1 {
                self.dont_save = false;
                let token = format_token(&self.pages[self.current]);
                (true, Some(token))
            } else {
                (true, None)
            }
        } else {
            (false, None)
        }
    }

    /// Retreat one page, clamped at the start. Returns whether the position
    /// moved, and the token to persist (every actual retreat persists).
    pub fn retreat(&mut self) -> (r: (bool, Option<Vec<u8>>))
        requires
            old(self).wf(),
        ensures
            final(self).wf(),
            final(self).pages@ == old(self).pages@,
            final(self).is_list == old(self).is_list,
            old(self).current > 0 ==> {
                &&& final(self).current == old(self).current - 1
                &&& final(self).dont_save == false
                &&& r.0 == true
                &&& r.1 is Some
                &&& r.1->0@ == spec_format(final(self).current_key())
            },
            old(self).current == 0 ==> *final(self) == *old(self) && r.0 == false && r.1 is None,
    {
        if self.current > 0 {
            self.current = self.current - 1;
            self.dont_save = false;
            let token = format_token(&self.pages[self.current]);
            (true, Some(token))
        } else {
            (false, None)
        }
    }

    /// The scroll heuristic fires: list mode, on the last document, scrolled
    /// past 90 percent of its stacked height, and not yet persisted for this
    /// visit.
    pub open spec fn scroll_fires(self, scroll: int, height: int) -> bool {
        &&& self.is_list
        &&& scroll * 100 / height > 90
        &&& self.current == self.pages@.len() - 1
        &&& !self.dont_save
    }

    /// One-shot persistence on deep scroll: fires at most once per page
    /// visit, guarded by the `dont_save` flag that firing sets.
    pub fn scroll_persist(&mut self, scroll: usize, height: usize) -> (r: Option<Vec<u8>>)
        requires
            old(self).wf(),
            height > 0,
            scroll <= usize::MAX / 100,
        ensures
            final(self).wf(),
            final(self).pages@ == old(self).pages@,
            final(self).is_list == old(self).is_list,
            final(self).current == old(self).current,
            old(self).scroll_fires(scroll as int, height as int) ==> {
                &&& final(self).dont_save == true
                &&& r is Some
                &&& r->0@ == spec_format(old(self).current_key())
            },
            !old(self).scroll_fires(scroll as int, height as int) ==> *final(self) == *old(self)
                && r is None,
    {
        proof {
            assert(scroll * 100 <= (usize::MAX / 100) * 100 <= usize::MAX) by (nonlinear_arith)
                requires
                    scroll <= usize::MAX / 100,
            ;
        }
        let percent = scroll * 100 / height;
        if self.is_list && percent > 90 && self.current == self.pages.len() - 1 && !self.dont_save
        {
            self.dont_save = true;
            let token = format_token(&self.pages[self.current]);
            Some(token)
        } else {
            None
        }
    }
}

/// Persistence is one-shot: once the scroll heuristic has fired, it cannot
/// fire again for the same visit, whatever the scroll position, until a
/// navigation step resets the guard.
pub proof fn lemma_scroll_persist_once(s: PageIndex, scroll: int, height: int)
    requires
        s.dont_save,
    ensures
        !s.scroll_fires(scroll, height),
{
}

} // verus!
