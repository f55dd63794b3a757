//! What every display backend offers.
use vstd::prelude::*;
use crate::gfx::frame::Frame;
use crate::gfx::geometry::Size;

verus! {

/// A display that hands out frames to draw on and shows finished ones.
pub trait DisplayDriver {
    /// The panel's resolution. It stays the same for the driver's lifetime.
    spec fn spec_size(&self) -> Size;

    /// The driver's own invariant.
    spec fn ready(&self) -> bool;

    fn size(&self) -> (s: Size)
        requires
            self.ready(),
        ensures
            s == self.spec_size(),
    ;

    /// Takes a finished frame and commits it for display. The frame must
    /// have the panel's size.
    fn show_frame(&mut self, frame: Frame)
        requires
            old(self).ready(),
            frame.wf(),
            frame.spec_size() == old(self).spec_size(),
        ensures
            final(self).ready(),
            final(self).spec_size() == old(self).spec_size(),
    ;

    /// A frame for the next drawing pass: of the panel's size and all dark.
    fn get_frame(&mut self) -> (f: Frame)
        requires
            old(self).ready(),
        ensures
            final(self).ready(),
            final(self).spec_size() == old(self).spec_size(),
            f.wf(),
            f.spec_size() == old(self).spec_size(),
            f.is_dark(),
    ;
}

} // verus!
