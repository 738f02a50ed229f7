//! The completer: takes the frames whose transmission is done off the
//! completion ring.

use crate::xdp::ring::{ready_of, Consumer};
use vstd::prelude::*;

verus! {

pub struct Completer<'a> {
    pub cr: Consumer<'a>,
}

impl<'a> Completer<'a> {
    pub fn new(cr: Consumer<'a>) -> (c: Self)
        ensures
            c.cr == cr,
    {
        Completer { cr }
    }

    /// Takes one completed frame off the ring and hands its entry back, if
    /// there is one. Where the cached counters show one, there is.
    pub fn tick(&mut self) -> (taken: bool)
        ensures
            ready_of(old(self).cr.0.cursor()) > 0 ==> taken,
            taken ==> final(self).cr.0.cursor().cached_cons == old(
                self,
            ).cr.0.cursor().cached_cons.wrapping_add(1),
            !taken ==> final(self).cr.0.cursor().cached_cons == old(
                self,
            ).cr.0.cursor().cached_cons,
    {
        if self.cr.peek(1).is_some() {
            self.cr.release(1);
            true
        } else {
            false
        }
    }
}

} // verus!
