use vstd::prelude::*;

use crate::frame::FrameBuffers;
use crate::ids::JointMatrix;

verus! {

/// Packs the joint sets of this frame's skinned entities into one buffer and
/// hands out the offset of each set, to be stored in the entity's record.
pub struct SkinningAggregator {
    staged: Vec<JointMatrix>,
    buffers: FrameBuffers<JointMatrix>,
}

impl SkinningAggregator {
    /// The joints packed so far this frame.
    pub closed spec fn staged_seq(&self) -> Seq<JointMatrix> {
        self.staged@
    }

    /// The per-frame buffers the packed joints are committed to.
    pub closed spec fn buffers_spec(&self) -> FrameBuffers<JointMatrix> {
        self.buffers
    }

    pub open spec fn wf(&self) -> bool {
        &&& self.buffers_spec().wf()
        &&& self.staged_seq().len() <= u32::MAX
    }

    /// Nothing packed, nothing committed.
    pub fn new() -> (r: Self)
        ensures
            r.wf(),
            r.staged_seq() == Seq::<JointMatrix>::empty(),
            forall|i: int| !r.buffers_spec().written(i),
    {
        SkinningAggregator { staged: Vec::new(), buffers: FrameBuffers::new() }
    }

    /// Appends a joint set and returns where it starts.
    pub fn insert(&mut self, joints: &Vec<JointMatrix>) -> (r: u32)
        requires
            old(self).wf(),
            old(self).staged_seq().len() + joints@.len() <= u32::MAX,
        ensures
            final(self).wf(),
            r == old(self).staged_seq().len(),
            final(self).staged_seq() == old(self).staged_seq() + joints@,
            final(self).buffers_spec() == old(self).buffers_spec(),
    {
        let offset = self.staged.len() as u32;
        let ghost s0 = self.staged@;
        let mut k: usize = 0;
        while k < joints.len()
            invariant
                0 <= k <= joints@.len(),
                self.staged@ == s0 + joints@.take(k as int),
                self.buffers == old(self).buffers,
                s0 == old(self).staged@,
            decreases joints@.len() - k,
        {
            self.staged.push(joints[k]);
            proof {
                assert(self.staged@ =~= s0 + joints@.take(k + 1));
            }
            k = k + 1;
        }
        proof {
            assert(joints@.take(k as int) =~= joints@);
        }
        offset
    }

    /// Writes the packed joints to slot `index`; nothing is written when no
    /// joint was packed. Other slots are untouched.
    pub fn commit(&mut self, index: usize) -> (r: bool)
        requires
            old(self).wf(),
            index < usize::MAX,
        ensures
            final(self).wf(),
            r == (old(self).staged_seq().len() > 0),
            final(self).staged_seq() == old(self).staged_seq(),
            r ==> final(self).buffers_spec().written(index as int),
            r ==> final(self).buffers_spec().contents(index as int) == old(self).staged_seq(),
            !r ==> final(self).buffers_spec() == old(self).buffers_spec(),
            forall|j: int|
                j != index ==> {
                    &&& final(self).buffers_spec().written(j) == old(self).buffers_spec().written(j)
                    &&& final(self).buffers_spec().contents(j) == old(self).buffers_spec().contents(j)
                },
    {
        let n = self.staged.len();
        self.buffers.write(index, n, &self.staged)
    }

    /// Empties the packed joints for the next frame.
    pub fn clear(&mut self)
        ensures
            final(self).staged_seq() == Seq::<JointMatrix>::empty(),
            final(self).buffers_spec() == old(self).buffers_spec(),
    {
        self.staged.clear();
    }

    /// Whether slot `index` holds committed joints to bind.
    pub fn bind(&self, index: usize) -> (r: bool)
        ensures
            r == self.buffers_spec().written(index as int),
    {
        self.buffers.bind(index)
    }
}

} // verus!
