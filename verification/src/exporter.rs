//! The snapshot buffer: a pair of text buffers, one visible to readers and
//! one being filled, exchanged wholesale after each successful render so
//! that a reader never observes a partially written document.

use crate::convert::{spec_render, RenderConfig, WriteOpenMetrics};
use crate::model::MetricsSnapshot;
use vstd::prelude::*;

verus! {

/// The state of one exporter: the text visible to readers (`front`) and
/// the buffer the next render fills (`back`).
pub struct BufferPair {
    front: String,
    back: String,
}

impl BufferPair {
    /// The text a reader observes.
    pub closed spec fn front_view(&self) -> Seq<char> {
        self.front@
    }

    /// Before any export, a reader observes the empty text.
    pub fn new() -> (r: BufferPair)
        ensures
            r.front_view() == Seq::<char>::empty(),
    {
        BufferPair { front: String::new(), back: String::new() }
    }

    /// One export cycle: the back buffer is cleared, the snapshot is
    /// rendered into it, and the two buffers are exchanged, so that
    /// readers move from one complete document to the next.
    pub fn publish(&mut self, snapshot: &MetricsSnapshot, cfg: &RenderConfig)
        requires
            crate::model::spec_snapshot_wf(snapshot@),
        ensures
            final(self).front_view() == spec_render(snapshot@, *cfg),
    {
        self.back = String::new();
        snapshot.write_as_openmetrics(&mut self.back, cfg);
        proof {
            assert(Seq::<char>::empty() + spec_render(snapshot@, *cfg) =~= spec_render(
                snapshot@,
                *cfg,
            ));
        }
        core::mem::swap(&mut self.front, &mut self.back);
    }

    /// The most recently published document, or the empty text before the
    /// first export.
    pub fn read(&self) -> (r: &String)
        ensures
            r@ == self.front_view(),
    {
        &self.front
    }

    /// There is no queued work to flush, so flushing always succeeds and
    /// leaves the visible text unchanged.
    pub fn force_flush(&self) -> (r: Result<(), ()>)
        ensures
            r is Ok,
    {
        Ok(())
    }

    /// Shutting down holds no resources to release, so it always succeeds
    /// and leaves the visible text unchanged.
    pub fn shutdown(&self) -> (r: Result<(), ()>)
        ensures
            r is Ok,
    {
        Ok(())
    }
}

} // verus!
