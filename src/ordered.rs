use vstd::prelude::*;

use crate::ids::{GroupRange, MaterialId, MeshId};

verus! {

/// The group list after appending `start..end` for `(material, mesh)`: the
/// last group grows when it has that key, otherwise a new group follows it.
pub open spec fn extend_groups(
    groups: Seq<GroupRange>,
    material: MaterialId,
    mesh: MeshId,
    start: u32,
    end: u32,
) -> Seq<GroupRange> {
    if groups.len() > 0 && groups.last().material == material && groups.last().mesh == mesh {
        groups.update(groups.len() - 1, GroupRange { end: end, ..groups.last() })
    } else {
        groups.push(GroupRange { material, mesh, start, end })
    }
}

/// The groups tile `0..n` in order, and neighbours have different keys.
pub open spec fn tiles(groups: Seq<GroupRange>, n: int) -> bool {
    &&& (groups.len() == 0 ==> n == 0)
    &&& (groups.len() > 0 ==> groups[0].start == 0 && groups.last().end == n)
    &&& forall|i: int| 0 <= i < groups.len() ==> #[trigger] groups[i].start <= groups[i].end
    &&& forall|i: int|
        0 <= i < groups.len() - 1 ==> #[trigger] groups[i].end == groups[i + 1].start
    &&& forall|i: int|
        0 <= i < groups.len() - 1 ==> !(#[trigger] groups[i].material == groups[i + 1].material
            && groups[i].mesh == groups[i + 1].mesh)
}

/// What a sequence of inserts into a cleared batch leaves: the groups and the
/// flattened stream.
pub open spec fn fill<D>(entries: Seq<(MaterialId, MeshId, Seq<D>)>) -> (Seq<GroupRange>, Seq<D>)
    decreases entries.len(),
{
    if entries.len() == 0 {
        (Seq::empty(), Seq::empty())
    } else {
        let prev = fill(entries.drop_last());
        let e = entries.last();
        (
            extend_groups(
                prev.0,
                e.0,
                e.1,
                prev.1.len() as u32,
                (prev.1.len() + e.2.len()) as u32,
            ),
            prev.1 + e.2,
        )
    }
}

/// The payloads of `entries`, concatenated in order.
pub open spec fn payloads<D>(entries: Seq<(MaterialId, MeshId, Seq<D>)>) -> Seq<D>
    decreases entries.len(),
{
    if entries.len() == 0 {
        Seq::empty()
    } else {
        payloads(entries.drop_last()) + entries.last().2
    }
}

/// A batch that keeps the order of insertion: each insert either extends the
/// last (material, mesh) group or opens a new one after it. The previous
/// frame's groups are kept for change detection.
pub struct OrderedTwoLevelBatch<D> {
    old_groups: Vec<GroupRange>,
    groups: Vec<GroupRange>,
    data_list: Vec<D>,
}

impl<D> OrderedTwoLevelBatch<D> {
    /// The flattened instance stream.
    pub closed spec fn data_seq(&self) -> Seq<D> {
        self.data_list@
    }

    /// This frame's groups, in order of insertion.
    pub closed spec fn groups_seq(&self) -> Seq<GroupRange> {
        self.groups@
    }

    /// The groups of the frame before the last `swap_clear`.
    pub closed spec fn old_groups_seq(&self) -> Seq<GroupRange> {
        self.old_groups@
    }

    pub open spec fn wf(&self) -> bool {
        &&& tiles(self.groups_seq(), self.data_seq().len() as int)
        &&& self.data_seq().len() <= u32::MAX
    }

    /// An empty batch with no previous frame.
    pub fn new() -> (r: Self)
        ensures
            r.wf(),
            r.data_seq() == Seq::<D>::empty(),
            r.groups_seq() == Seq::<GroupRange>::empty(),
            r.old_groups_seq() == Seq::<GroupRange>::empty(),
    {
        OrderedTwoLevelBatch { old_groups: Vec::new(), groups: Vec::new(), data_list: Vec::new() }
    }

    /// Starts a new frame: this frame's groups become the previous frame's,
    /// and the groups and the stream are emptied.
    pub fn swap_clear(&mut self)
        ensures
            final(self).wf(),
            final(self).old_groups_seq() == old(self).groups_seq(),
            final(self).groups_seq() == Seq::<GroupRange>::empty(),
            final(self).data_seq() == Seq::<D>::empty(),
    {
        std::mem::swap(&mut self.old_groups, &mut self.groups);
        self.groups.clear();
        self.data_list.clear();
    }

    /// Appends `data` to the stream under `(material, mesh)`.
    pub fn insert(&mut self, material: MaterialId, mesh: MeshId, data: Vec<D>)
        requires
            old(self).wf(),
            old(self).data_seq().len() + data@.len() <= u32::MAX,
        ensures
            final(self).wf(),
            final(self).data_seq() == old(self).data_seq() + data@,
            final(self).groups_seq() == extend_groups(
                old(self).groups_seq(),
                material,
                mesh,
                old(self).data_seq().len() as u32,
                (old(self).data_seq().len() + data@.len()) as u32,
            ),
            final(self).old_groups_seq() == old(self).old_groups_seq(),
    {
        let start = self.data_list.len() as u32;
        let mut data = data;
        self.data_list.append(&mut data);
        let end = self.data_list.len() as u32;
        let n = self.groups.len();
        if n > 0 && self.groups[n - 1].material == material && self.groups[n - 1].mesh == mesh {
            let last = self.groups[n - 1];
            self.groups.set(n - 1, GroupRange { end, ..last });
        } else {
            self.groups.push(GroupRange { material, mesh, start, end });
        }
    }

    /// The flattened instance stream, group by group.
    pub fn data(&self) -> (r: &Vec<D>)
        ensures
            r@ == self.data_seq(),
    {
        &self.data_list
    }

    /// The groups, each with its range of the stream, in order of insertion.
    pub fn iter(&self) -> (r: &Vec<GroupRange>)
        ensures
            r@ == self.groups_seq(),
    {
        &self.groups
    }

    /// The number of instances in the stream.
    pub fn count(&self) -> (r: usize)
        ensures
            r == self.data_seq().len(),
    {
        self.data_list.len()
    }

    /// Whether this frame's groups or their ranges differ from the previous
    /// frame's.
    pub fn changed(&self) -> (r: bool)
        ensures
            r == (self.groups_seq() != self.old_groups_seq()),
    {
        if self.groups.len() != self.old_groups.len() {
            return true;
        }
        let mut i: usize = 0;
        while i < self.groups.len()
            invariant
                0 <= i <= self.groups.len(),
                self.groups.len() == self.old_groups.len(),
                forall|k: int| 0 <= k < i ==> self.groups@[k] == self.old_groups@[k],
            decreases self.groups.len() - i,
        {
            if self.groups[i] != self.old_groups[i] {
                return true;
            }
            i = i + 1;
        }
        assert(self.groups@ =~= self.old_groups@);
        false
    }
}

/// Inserting into an ordered batch keeps the relative order of everything
/// inserted: the stream is the inserted payloads concatenated in order.
pub proof fn lemma_fill_keeps_order<D>(entries: Seq<(MaterialId, MeshId, Seq<D>)>)
    ensures
        fill(entries).1 == payloads(entries),
    decreases entries.len(),
{
    if entries.len() > 0 {
        lemma_fill_keeps_order(entries.drop_last());
    }
}

/// Inserts that all name one (material, mesh) form a single group that spans
/// the whole stream, in order of insertion.
pub proof fn lemma_fill_one_key<D>(
    material: MaterialId,
    mesh: MeshId,
    entries: Seq<(MaterialId, MeshId, Seq<D>)>,
)
    requires
        entries.len() > 0,
        forall|i: int| 0 <= i < entries.len() ==> #[trigger] entries[i].0 == material
            && entries[i].1 == mesh,
        payloads(entries).len() <= u32::MAX,
    ensures
        fill(entries).0 == seq![
            GroupRange { material, mesh, start: 0, end: payloads(entries).len() as u32 },
        ],
        fill(entries).1 == payloads(entries),
    decreases entries.len(),
{
    lemma_fill_keeps_order(entries);
    let prev = entries.drop_last();
    let e = entries.last();
    assert(e == entries[entries.len() - 1]);
    if prev.len() > 0 {
        assert forall|i: int| 0 <= i < prev.len() implies #[trigger] prev[i].0 == material
            && prev[i].1 == mesh by {
            assert(prev[i] == entries[i]);
        }
        lemma_fill_one_key(material, mesh, prev);
        lemma_fill_keeps_order(prev);
        let g = GroupRange { material, mesh, start: 0, end: payloads(prev).len() as u32 };
        assert(fill(prev).0 =~= seq![g]);
        assert(fill(entries).0 =~= seq![
            GroupRange { material, mesh, start: 0, end: payloads(entries).len() as u32 },
        ]);
    } else {
        assert(payloads(prev) == Seq::<D>::empty());
        assert(fill(prev).0 =~= Seq::<GroupRange>::empty());
        assert(payloads(entries) =~= e.2);
        assert(fill(entries).0 =~= seq![
            GroupRange { material, mesh, start: 0, end: payloads(entries).len() as u32 },
        ]);
    }
}

} // verus!
