use vstd::prelude::*;

use crate::ids::{GroupRange, MaterialId, MeshId};
use crate::ordered::payloads;

verus! {

/// The mesh groups of one material: each mesh with its instances.
pub type MeshGroups<D> = Seq<(MeshId, Seq<D>)>;

/// The material groups of a batch: each material with its mesh groups.
pub type MaterialGroups<D> = Seq<(MaterialId, MeshGroups<D>)>;

pub open spec fn has_mesh<D>(gs: MeshGroups<D>, k: MeshId) -> bool {
    exists|j: int| 0 <= j < gs.len() && gs[j].0 == k
}

pub open spec fn mesh_index<D>(gs: MeshGroups<D>, k: MeshId) -> int {
    if has_mesh(gs, k) {
        choose|j: int| 0 <= j < gs.len() && gs[j].0 == k
    } else {
        -1
    }
}

pub open spec fn has_material<D>(v: MaterialGroups<D>, m: MaterialId) -> bool {
    exists|i: int| 0 <= i < v.len() && v[i].0 == m
}

pub open spec fn material_index<D>(v: MaterialGroups<D>, m: MaterialId) -> int {
    if has_material(v, m) {
        choose|i: int| 0 <= i < v.len() && v[i].0 == m
    } else {
        -1
    }
}

/// Whether the batch has a group for `(m, k)`.
pub open spec fn has_key<D>(v: MaterialGroups<D>, m: MaterialId, k: MeshId) -> bool {
    exists|i: int| 0 <= i < v.len() && v[i].0 == m && has_mesh(#[trigger] v[i].1, k)
}

pub open spec fn meshes_unique<D>(gs: MeshGroups<D>) -> bool {
    forall|a: int, b: int| 0 <= a < b < gs.len() ==> gs[a].0 != gs[b].0
}

/// Each material has one group, and each mesh one group within it.
pub open spec fn keys_unique<D>(v: MaterialGroups<D>) -> bool {
    &&& forall|a: int, b: int| 0 <= a < b < v.len() ==> v[a].0 != v[b].0
    &&& forall|i: int| 0 <= i < v.len() ==> meshes_unique(#[trigger] v[i].1)
}

/// The groups after `d` is appended under `(m, k)`: to the existing group,
/// or to a new mesh group of the material, or to a new material group.
pub open spec fn inserted<D>(v: MaterialGroups<D>, m: MaterialId, k: MeshId, d: Seq<D>) -> MaterialGroups<D> {
    let i = material_index(v, m);
    if i < 0 {
        v.push((m, seq![(k, d)]))
    } else {
        let gs = v[i].1;
        let j = mesh_index(gs, k);
        if j < 0 {
            v.update(i, (m, gs.push((k, d))))
        } else {
            v.update(i, (m, gs.update(j, (k, gs[j].1 + d))))
        }
    }
}

/// The instances of the mesh groups, group by group.
pub open spec fn flat_meshes<D>(gs: MeshGroups<D>) -> Seq<D>
    decreases gs.len(),
{
    if gs.len() == 0 {
        Seq::empty()
    } else {
        flat_meshes(gs.drop_last()) + gs.last().1
    }
}

/// The flattened instance stream: material by material, mesh by mesh.
pub open spec fn flat<D>(v: MaterialGroups<D>) -> Seq<D>
    decreases v.len(),
{
    if v.len() == 0 {
        Seq::empty()
    } else {
        flat(v.drop_last()) + flat_meshes(v.last().1)
    }
}

/// The ranges of the mesh groups of material `m`, whose stream starts at `base`.
pub open spec fn mesh_ranges<D>(m: MaterialId, gs: MeshGroups<D>, base: nat) -> Seq<GroupRange>
    decreases gs.len(),
{
    if gs.len() == 0 {
        Seq::empty()
    } else {
        mesh_ranges(m, gs.drop_last(), base).push(
            GroupRange {
                material: m,
                mesh: gs.last().0,
                start: (base + flat_meshes(gs.drop_last()).len()) as u32,
                end: (base + flat_meshes(gs).len()) as u32,
            },
        )
    }
}

/// The range of the flattened stream that each group occupies, in stream order.
pub open spec fn ranges_of<D>(v: MaterialGroups<D>) -> Seq<GroupRange>
    decreases v.len(),
{
    if v.len() == 0 {
        Seq::empty()
    } else {
        ranges_of(v.drop_last()) + mesh_ranges(v.last().0, v.last().1, flat(v.drop_last()).len())
    }
}

/// Every group emptied, every key kept.
pub open spec fn cleared<D>(v: MaterialGroups<D>) -> MaterialGroups<D> {
    v.map_values(|e: (MaterialId, MeshGroups<D>)| (e.0, cleared_meshes(e.1)))
}

pub open spec fn cleared_meshes<D>(gs: MeshGroups<D>) -> MeshGroups<D> {
    gs.map_values(|g: (MeshId, Seq<D>)| (g.0, Seq::<D>::empty()))
}

/// The mesh groups that hold at least one instance, in order.
pub open spec fn nonempty_meshes<D>(gs: MeshGroups<D>) -> MeshGroups<D>
    decreases gs.len(),
{
    if gs.len() == 0 {
        Seq::empty()
    } else {
        let p = nonempty_meshes(gs.drop_last());
        if gs.last().1.len() > 0 {
            p.push(gs.last())
        } else {
            p
        }
    }
}

/// The groups with empty mesh groups removed, then materials left without
/// mesh groups removed.
pub open spec fn pruned<D>(v: MaterialGroups<D>) -> MaterialGroups<D>
    decreases v.len(),
{
    if v.len() == 0 {
        Seq::empty()
    } else {
        let p = pruned(v.drop_last());
        let ms = nonempty_meshes(v.last().1);
        if ms.len() > 0 {
            p.push((v.last().0, ms))
        } else {
            p
        }
    }
}

/// No group is empty.
pub open spec fn all_nonempty<D>(v: MaterialGroups<D>) -> bool {
    forall|i: int| 0 <= i < v.len() ==> {
        &&& (#[trigger] v[i]).1.len() > 0
        &&& forall|j: int| 0 <= j < v[i].1.len() ==> (#[trigger] v[i].1[j]).1.len() > 0
    }
}

struct MeshBatch<D> {
    mesh: MeshId,
    items: Vec<D>,
}

struct MaterialBatch<D> {
    material: MaterialId,
    meshes: Vec<MeshBatch<D>>,
}

spec fn mesh_view<D>(g: MeshBatch<D>) -> (MeshId, Seq<D>) {
    (g.mesh, g.items@)
}

spec fn meshes_view<D>(gs: Seq<MeshBatch<D>>) -> MeshGroups<D> {
    gs.map_values(|g: MeshBatch<D>| mesh_view(g))
}

spec fn material_view<D>(e: MaterialBatch<D>) -> (MaterialId, MeshGroups<D>) {
    (e.material, meshes_view(e.meshes@))
}

spec fn materials_view<D>(v: Seq<MaterialBatch<D>>) -> MaterialGroups<D> {
    v.map_values(|e: MaterialBatch<D>| material_view(e))
}

/// A batch grouped by material, then by mesh, in which the order of the
/// groups carries no meaning. Keys stay from frame to frame until pruned.
pub struct TwoLevelBatch<D> {
    materials: Vec<MaterialBatch<D>>,
}

impl<D> View for TwoLevelBatch<D> {
    type V = MaterialGroups<D>;

    closed spec fn view(&self) -> MaterialGroups<D> {
        materials_view(self.materials@)
    }
}

fn find_mesh<D>(gs: &Vec<MeshBatch<D>>, k: MeshId) -> (r: Option<usize>)
    ensures
        match r {
            Some(j) => j < gs@.len() && gs@[j as int].mesh == k,
            None => forall|j: int| 0 <= j < gs@.len() ==> gs@[j].mesh != k,
        },
{
    let mut j: usize = 0;
    while j < gs.len()
        invariant
            0 <= j <= gs@.len(),
            forall|a: int| 0 <= a < j ==> gs@[a].mesh != k,
        decreases gs@.len() - j,
    {
        if gs[j].mesh == k {
            return Some(j);
        }
        j = j + 1;
    }
    None
}

impl<D> TwoLevelBatch<D> {
    pub open spec fn wf(&self) -> bool {
        &&& keys_unique(self@)
        &&& flat(self@).len() <= u32::MAX
    }

    /// An empty batch.
    pub fn new() -> (r: Self)
        ensures
            r.wf(),
            r@ == Seq::<(MaterialId, MeshGroups<D>)>::empty(),
    {
        let r = TwoLevelBatch { materials: Vec::new() };
        assert(r@ =~= Seq::<(MaterialId, MeshGroups<D>)>::empty());
        r
    }

    fn find_material(&self, m: MaterialId) -> (r: Option<usize>)
        ensures
            match r {
                Some(i) => i < self@.len() && self@[i as int].0 == m,
                None => !has_material(self@, m),
            },
    {
        let mut i: usize = 0;
        while i < self.materials.len()
            invariant
                0 <= i <= self.materials@.len(),
                self@.len() == self.materials@.len(),
                forall|a: int| 0 <= a < i ==> self@[a].0 != m,
            decreases self.materials@.len() - i,
        {
            if self.materials[i].material == m {
                return Some(i);
            }
            i = i + 1;
        }
        None
    }

    /// Appends `data` to the group of `(material, mesh)`, making the group
    /// if there is none.
    pub fn insert(&mut self, material: MaterialId, mesh: MeshId, data: Vec<D>)
        requires
            old(self).wf(),
            flat(old(self)@).len() + data@.len() <= u32::MAX,
        ensures
            final(self).wf(),
            final(self)@ == inserted(old(self)@, material, mesh, data@),
    {
        let ghost v = self@;
        let ghost d = data@;
        let mut data = data;
        proof {
            lemma_inserted(v, material, mesh, d);
        }
        match self.find_material(material) {
            None => {
                let mut meshes: Vec<MeshBatch<D>> = Vec::new();
                meshes.push(MeshBatch { mesh, items: data });
                self.materials.push(MaterialBatch { material, meshes });
                proof {
                    assert(meshes_view(meshes@) =~= seq![(mesh, d)]);
                    assert(self@ =~= v.push((material, seq![(mesh, d)])));
                }
            },
            Some(i) => {
                proof {
                    let c = material_index(v, material);
                    assert(has_material(v, material));
                    assert(c == i);
                }
                let ghost gs = v[i as int].1;
                let entry = &mut self.materials[i];
                match find_mesh(&entry.meshes, mesh) {
                    None => {
                        proof {
                            assert(!has_mesh(gs, mesh));
                        }
                        entry.meshes.push(MeshBatch { mesh, items: data });
                        proof {
                            assert(meshes_view(entry.meshes@) =~= gs.push((mesh, d)));
                        }
                    },
                    Some(j) => {
                        proof {
                            assert(has_mesh(gs, mesh));
                            assert(mesh_index(gs, mesh) == j);
                        }
                        entry.meshes[j].items.append(&mut data);
                        proof {
                            assert(meshes_view(entry.meshes@) =~= gs.update(
                                j as int,
                                (mesh, gs[j as int].1 + d),
                            ));
                        }
                    },
                }
                proof {
                    assert(self@ =~= inserted(v, material, mesh, d));
                }
            },
        }
    }
}


fn clear_meshes<D>(gs: &mut Vec<MeshBatch<D>>)
    ensures
        meshes_view(final(gs)@) == cleared_meshes(meshes_view(old(gs)@)),
{
    let ghost g0 = meshes_view(gs@);
    let mut j: usize = 0;
    while j < gs.len()
        invariant
            0 <= j <= gs@.len(),
            gs@.len() == g0.len(),
            forall|a: int| 0 <= a < j ==> mesh_view(#[trigger] gs@[a]) == (g0[a].0, Seq::<D>::empty()),
            forall|a: int| j <= a < gs@.len() ==> mesh_view(#[trigger] gs@[a]) == g0[a],
        decreases gs@.len() - j,
    {
        gs[j].items.clear();
        j = j + 1;
    }
    assert(meshes_view(gs@) =~= cleared_meshes(g0));
}

fn prune_meshes<D>(gs: Vec<MeshBatch<D>>) -> (r: Vec<MeshBatch<D>>)
    ensures
        meshes_view(r@) == nonempty_meshes(meshes_view(gs@)),
{
    let ghost g0 = meshes_view(gs@);
    let mut src = gs;
    let mut out: Vec<MeshBatch<D>> = Vec::new();
    let mut j: usize = 0;
    while j < src.len()
        invariant
            0 <= j <= src@.len(),
            src@.len() == g0.len(),
            forall|a: int| j <= a < src@.len() ==> mesh_view(#[trigger] src@[a]) == g0[a],
            meshes_view(out@) == nonempty_meshes(g0.take(j as int)),
        decreases src@.len() - j,
    {
        proof {
            assert(g0.take(j + 1).drop_last() =~= g0.take(j as int));
            assert(g0.take(j + 1).last() == g0[j as int]);
        }
        if src[j].items.len() > 0 {
            let mut items: Vec<D> = Vec::new();
            std::mem::swap(&mut items, &mut src[j].items);
            let mesh = src[j].mesh;
            let ghost before = meshes_view(out@);
            out.push(MeshBatch { mesh, items });
            proof {
                assert(meshes_view(out@) =~= before.push(g0[j as int]));
            }
        }
        j = j + 1;
    }
    assert(g0.take(j as int) =~= g0);
    out
}

impl<D> TwoLevelBatch<D> {
    /// Empties every group and keeps every key, so that groups that receive
    /// nothing this frame can be pruned.
    pub fn clear_inner(&mut self)
        requires
            old(self).wf(),
        ensures
            final(self).wf(),
            final(self)@ == cleared(old(self)@),
            flat(final(self)@) == Seq::<D>::empty(),
    {
        let ghost v = self@;
        let mut i: usize = 0;
        while i < self.materials.len()
            invariant
                0 <= i <= self.materials@.len(),
                self.materials@.len() == v.len(),
                forall|a: int| 0 <= a < i ==> material_view(#[trigger] self.materials@[a]) == (
                    v[a].0,
                    cleared_meshes(v[a].1),
                ),
                forall|a: int| i <= a < self.materials@.len() ==> material_view(
                    #[trigger] self.materials@[a],
                ) == v[a],
            decreases self.materials@.len() - i,
        {
            clear_meshes(&mut self.materials[i].meshes);
            i = i + 1;
        }
        proof {
            assert(self@ =~= cleared(v));
            lemma_cleared(v);
        }
    }

    /// Removes the mesh groups that hold no instance, then the materials left
    /// with no mesh group. The stream is unchanged.
    pub fn prune(&mut self)
        requires
            old(self).wf(),
        ensures
            final(self).wf(),
            final(self)@ == pruned(old(self)@),
            flat(final(self)@) == flat(old(self)@),
    {
        let ghost v = self@;
        let mut src: Vec<MaterialBatch<D>> = Vec::new();
        std::mem::swap(&mut src, &mut self.materials);
        let mut out: Vec<MaterialBatch<D>> = Vec::new();
        let mut i: usize = 0;
        while i < src.len()
            invariant
                0 <= i <= src@.len(),
                src@.len() == v.len(),
                forall|a: int| i <= a < src@.len() ==> material_view(#[trigger] src@[a]) == v[a],
                materials_view(out@) == pruned(v.take(i as int)),
            decreases src@.len() - i,
        {
            proof {
                assert(v.take(i + 1).drop_last() =~= v.take(i as int));
                assert(v.take(i + 1).last() == v[i as int]);
            }
            let mut meshes: Vec<MeshBatch<D>> = Vec::new();
            std::mem::swap(&mut meshes, &mut src[i].meshes);
            let kept = prune_meshes(meshes);
            if kept.len() > 0 {
                let material = src[i].material;
                let ghost before = materials_view(out@);
                out.push(MaterialBatch { material, meshes: kept });
                proof {
                    assert(materials_view(out@) =~= before.push(
                        (v[i as int].0, nonempty_meshes(v[i as int].1)),
                    ));
                }
            }
            i = i + 1;
        }
        self.materials = out;
        proof {
            assert(v.take(i as int) =~= v);
            lemma_pruned(v);
        }
    }

    /// The number of instances in the stream.
    pub fn count(&self) -> (r: usize)
        requires
            self.wf(),
        ensures
            r == flat(self@).len(),
    {
        let ghost v = self@;
        let mut n: usize = 0;
        let mut i: usize = 0;
        while i < self.materials.len()
            invariant
                0 <= i <= self.materials@.len(),
                v == self@,
                flat(v).len() <= u32::MAX,
                n == flat(v.take(i as int)).len(),
            decreases self.materials@.len() - i,
        {
            let gs = &self.materials[i].meshes;
            let ghost g = v[i as int].1;
            proof {
                assert(g == meshes_view(gs@));
                assert(v.take(i + 1).drop_last() =~= v.take(i as int));
                lemma_flat_prefix_len(v, i + 1);
            }
            let mut j: usize = 0;
            while j < gs.len()
                invariant
                    0 <= j <= gs@.len(),
                    g == meshes_view(gs@),
                    flat(v.take(i as int)).len() + flat_meshes(g).len() <= u32::MAX,
                    n == flat(v.take(i as int)).len() + flat_meshes(g.take(j as int)).len(),
                decreases gs@.len() - j,
            {
                proof {
                    assert(g.take(j + 1).drop_last() =~= g.take(j as int));
                    lemma_flat_meshes_prefix_len(g, j + 1);
                }
                n = n + gs[j].items.len();
                j = j + 1;
            }
            proof {
                assert(g.take(j as int) =~= g);
            }
            i = i + 1;
        }
        proof {
            assert(v.take(i as int) =~= v);
        }
        n
    }

    /// For each group, its material, its mesh and its range of the stream,
    /// in stream order: one draw call each.
    pub fn iter(&self) -> (r: Vec<GroupRange>)
        requires
            self.wf(),
        ensures
            r@ == ranges_of(self@),
    {
        let ghost v = self@;
        let mut out: Vec<GroupRange> = Vec::new();
        let mut n: u32 = 0;
        let mut i: usize = 0;
        while i < self.materials.len()
            invariant
                0 <= i <= self.materials@.len(),
                v == self@,
                flat(v).len() <= u32::MAX,
                n == flat(v.take(i as int)).len(),
                out@ == ranges_of(v.take(i as int)),
            decreases self.materials@.len() - i,
        {
            let material = self.materials[i].material;
            let gs = &self.materials[i].meshes;
            let ghost g = v[i as int].1;
            let ghost base = flat(v.take(i as int)).len();
            let ghost out0 = out@;
            proof {
                assert(g == meshes_view(gs@));
                assert(v.take(i + 1).drop_last() =~= v.take(i as int));
                lemma_flat_prefix_len(v, i + 1);
            }
            let mut j: usize = 0;
            while j < gs.len()
                invariant
                    0 <= j <= gs@.len(),
                    g == meshes_view(gs@),
                    material == v[i as int].0,
                    base + flat_meshes(g).len() <= u32::MAX,
                    n == base + flat_meshes(g.take(j as int)).len(),
                    out@ == out0 + mesh_ranges(material, g.take(j as int), base),
                decreases gs@.len() - j,
            {
                proof {
                    assert(g.take(j + 1).drop_last() =~= g.take(j as int));
                    lemma_flat_meshes_prefix_len(g, j + 1);
                }
                let start = n;
                n = n + gs[j].items.len() as u32;
                let ghost before = out@;
                out.push(GroupRange { material, mesh: gs[j].mesh, start, end: n });
                proof {
                    assert(out@ =~= out0 + mesh_ranges(material, g.take(j + 1), base));
                }
                j = j + 1;
            }
            proof {
                assert(g.take(j as int) =~= g);
                assert(out@ =~= ranges_of(v.take(i + 1)));
            }
            i = i + 1;
        }
        proof {
            assert(v.take(i as int) =~= v);
        }
        out
    }
}

impl<D: Copy> TwoLevelBatch<D> {
    /// The flattened instance stream: material by material, mesh by mesh.
    pub fn data(&self) -> (r: Vec<D>)
        ensures
            r@ == flat(self@),
    {
        let ghost v = self@;
        let mut out: Vec<D> = Vec::new();
        let mut i: usize = 0;
        while i < self.materials.len()
            invariant
                0 <= i <= self.materials@.len(),
                v == self@,
                out@ == flat(v.take(i as int)),
            decreases self.materials@.len() - i,
        {
            let gs = &self.materials[i].meshes;
            let ghost g = v[i as int].1;
            let ghost out0 = out@;
            proof {
                assert(g == meshes_view(gs@));
                assert(v.take(i + 1).drop_last() =~= v.take(i as int));
            }
            let mut j: usize = 0;
            while j < gs.len()
                invariant
                    0 <= j <= gs@.len(),
                    g == meshes_view(gs@),
                    out@ == out0 + flat_meshes(g.take(j as int)),
                decreases gs@.len() - j,
            {
                let items = &gs[j].items;
                let ghost out1 = out@;
                let mut k: usize = 0;
                while k < items.len()
                    invariant
                        0 <= k <= items@.len(),
                        out@ == out1 + items@.take(k as int),
                    decreases items@.len() - k,
                {
                    out.push(items[k]);
                    proof {
                        assert(out@ =~= out1 + items@.take(k + 1));
                    }
                    k = k + 1;
                }
                proof {
                    assert(items@.take(k as int) =~= items@);
                    assert(g.take(j + 1).drop_last() =~= g.take(j as int));
                    assert(out@ =~= out0 + flat_meshes(g.take(j + 1)));
                }
                j = j + 1;
            }
            proof {
                assert(g.take(j as int) =~= g);
            }
            i = i + 1;
        }
        proof {
            assert(v.take(i as int) =~= v);
        }
        out
    }
}

proof fn lemma_flat_prefix_len<D>(v: MaterialGroups<D>, i: int)
    requires
        0 <= i <= v.len(),
    ensures
        flat(v.take(i)).len() <= flat(v).len(),
    decreases v.len(),
{
    if i == v.len() {
        assert(v.take(i) =~= v);
    } else {
        assert(v.take(i) =~= v.drop_last().take(i));
        lemma_flat_prefix_len(v.drop_last(), i);
    }
}

proof fn lemma_flat_meshes_prefix_len<D>(gs: MeshGroups<D>, j: int)
    requires
        0 <= j <= gs.len(),
    ensures
        flat_meshes(gs.take(j)).len() <= flat_meshes(gs).len(),
    decreases gs.len(),
{
    if j == gs.len() {
        assert(gs.take(j) =~= gs);
    } else {
        assert(gs.take(j) =~= gs.drop_last().take(j));
        lemma_flat_meshes_prefix_len(gs.drop_last(), j);
    }
}

proof fn lemma_cleared_meshes<D>(gs: MeshGroups<D>)
    ensures
        flat_meshes(cleared_meshes(gs)) == Seq::<D>::empty(),
        cleared_meshes(gs).len() == gs.len(),
        forall|j: int| 0 <= j < gs.len() ==> (#[trigger] cleared_meshes(gs)[j]).0 == gs[j].0,
    decreases gs.len(),
{
    if gs.len() > 0 {
        assert(cleared_meshes(gs).drop_last() =~= cleared_meshes(gs.drop_last()));
        lemma_cleared_meshes(gs.drop_last());
        assert(flat_meshes(cleared_meshes(gs)) =~= Seq::<D>::empty());
    }
}

/// Emptying every group keeps the keys unique and leaves an empty stream.
proof fn lemma_cleared<D>(v: MaterialGroups<D>)
    requires
        keys_unique(v),
    ensures
        keys_unique(cleared(v)),
        flat(cleared(v)) == Seq::<D>::empty(),
    decreases v.len(),
{
    let c = cleared(v);
    assert forall|i: int| 0 <= i < c.len() implies meshes_unique(#[trigger] c[i].1) by {
        lemma_cleared_meshes(v[i].1);
        assert(meshes_unique(v[i].1));
    }
    if v.len() > 0 {
        assert(c.drop_last() =~= cleared(v.drop_last()));
        assert(keys_unique(v.drop_last()));
        lemma_cleared(v.drop_last());
        lemma_cleared_meshes(v.last().1);
        assert(flat(c) =~= Seq::<D>::empty());
    }
}

proof fn lemma_nonempty_meshes<D>(gs: MeshGroups<D>)
    ensures
        flat_meshes(nonempty_meshes(gs)) == flat_meshes(gs),
        forall|a: int| 0 <= a < nonempty_meshes(gs).len() ==> exists|b: int| 0 <= b < gs.len()
            && #[trigger] nonempty_meshes(gs)[a] == gs[b],
        forall|a: int| 0 <= a < nonempty_meshes(gs).len() ==> (#[trigger] nonempty_meshes(gs)[a]).1.len() > 0,
        meshes_unique(gs) ==> meshes_unique(nonempty_meshes(gs)),
    decreases gs.len(),
{
    if gs.len() > 0 {
        let p = gs.drop_last();
        lemma_nonempty_meshes(p);
        let np = nonempty_meshes(p);
        let n = nonempty_meshes(gs);
        if gs.last().1.len() > 0 {
            lemma_flat_meshes_push(np, gs.last());
            assert forall|a: int| 0 <= a < n.len() implies exists|b: int| 0 <= b < gs.len()
                && #[trigger] n[a] == gs[b] by {
                if a < np.len() {
                    let b = choose|b: int| 0 <= b < p.len() && #[trigger] np[a] == p[b];
                    assert(n[a] == gs[b]);
                } else {
                    assert(n[a] == gs[gs.len() - 1]);
                }
            }
            if meshes_unique(gs) {
                assert(meshes_unique(p));
                assert forall|a: int, b: int| 0 <= a < b < n.len() implies n[a].0 != n[b].0 by {
                    if b == np.len() {
                        let c = choose|c: int| 0 <= c < p.len() && #[trigger] np[a] == p[c];
                        assert(n[a] == gs[c]);
                        assert(n[b] == gs[gs.len() - 1]);
                    } else {
                        assert(n[a] == np[a]);
                        assert(n[b] == np[b]);
                    }
                }
            }
        } else {
            assert(gs.last().1 =~= Seq::<D>::empty());
            assert(flat_meshes(gs) =~= flat_meshes(p));
            assert forall|a: int| 0 <= a < n.len() implies exists|b: int| 0 <= b < gs.len()
                && #[trigger] n[a] == gs[b] by {
                let b = choose|b: int| 0 <= b < p.len() && #[trigger] np[a] == p[b];
                assert(n[a] == gs[b]);
            }
            if meshes_unique(gs) {
                assert(meshes_unique(p));
            }
        }
    }
}

/// Pruning keeps the keys unique, keeps the stream, and leaves no empty group.
pub proof fn lemma_pruned<D>(v: MaterialGroups<D>)
    requires
        keys_unique(v),
    ensures
        keys_unique(pruned(v)),
        flat(pruned(v)) == flat(v),
        all_nonempty(pruned(v)),
        forall|a: int| 0 <= a < pruned(v).len() ==> exists|b: int| 0 <= b < v.len()
            && (#[trigger] pruned(v)[a]).0 == v[b].0,
    decreases v.len(),
{
    if v.len() > 0 {
        let p = v.drop_last();
        assert(keys_unique(p)) by {
            assert forall|i: int| 0 <= i < p.len() implies meshes_unique(#[trigger] p[i].1) by {
                assert(p[i] == v[i]);
            }
        }
        lemma_pruned(p);
        let pp = pruned(p);
        let r = pruned(v);
        let last = v.last();
        assert(meshes_unique(v[v.len() - 1].1));
        lemma_nonempty_meshes(last.1);
        let ms = nonempty_meshes(last.1);
        if ms.len() > 0 {
            lemma_flat_push(pp, (last.0, ms));
            assert(r == pp.push((last.0, ms)));
            assert forall|a: int| 0 <= a < r.len() implies exists|b: int| 0 <= b < v.len()
                && (#[trigger] r[a]).0 == v[b].0 by {
                if a < pp.len() {
                    let b = choose|b: int| 0 <= b < p.len() && (#[trigger] pp[a]).0 == p[b].0;
                    assert(r[a] == pp[a]);
                    assert(v[b] == p[b]);
                } else {
                    assert(r[a].0 == v[v.len() - 1].0);
                }
            }
            assert forall|a: int, b: int| 0 <= a < b < r.len() implies r[a].0 != r[b].0 by {
                if b == pp.len() {
                    let c = choose|c: int| 0 <= c < p.len() && (#[trigger] pp[a]).0 == p[c].0;
                    assert(r[a] == pp[a]);
                    assert(v[c] == p[c]);
                } else {
                    assert(r[a] == pp[a]);
                    assert(r[b] == pp[b]);
                }
            }
            assert forall|i: int| 0 <= i < r.len() implies meshes_unique(#[trigger] r[i].1) by {
                if i < pp.len() {
                    assert(r[i] == pp[i]);
                }
            }
            assert forall|i: int| 0 <= i < r.len() implies {
                &&& (#[trigger] r[i]).1.len() > 0
                &&& forall|j: int| 0 <= j < r[i].1.len() ==> (#[trigger] r[i].1[j]).1.len() > 0
            } by {
                if i < pp.len() {
                    assert(r[i] == pp[i]);
                }
            }
        } else {
            assert(flat_meshes(ms) =~= Seq::<D>::empty());
            assert(flat(v) =~= flat(p));
        }
    }
}


/// The groups after each entry's payload is appended under its key, in order.
pub open spec fn insert_all<D>(
    v: MaterialGroups<D>,
    entries: Seq<(MaterialId, MeshId, Seq<D>)>,
) -> MaterialGroups<D>
    decreases entries.len(),
{
    if entries.len() == 0 {
        v
    } else {
        let e = entries.last();
        inserted(insert_all(v, entries.drop_last()), e.0, e.1, e.2)
    }
}

/// Grouping a set of entries into an empty batch gives one group per
/// material that the entries name, and within it one group per mesh that
/// they name with that material; the stream holds every instance once.
pub proof fn lemma_grouping<D>(entries: Seq<(MaterialId, MeshId, Seq<D>)>)
    ensures
        keys_unique(insert_all(Seq::empty(), entries)),
        forall|m: MaterialId|
            has_material(insert_all(Seq::empty(), entries), m) <==> exists|i: int|
                0 <= i < entries.len() && (#[trigger] entries[i]).0 == m,
        forall|m: MaterialId, k: MeshId|
            has_key(insert_all(Seq::empty(), entries), m, k) <==> exists|i: int|
                0 <= i < entries.len() && (#[trigger] entries[i]).0 == m && entries[i].1 == k,
        flat(insert_all(Seq::empty(), entries)).len() == payloads(entries).len(),
        insert_all(Seq::<(MaterialId, MeshGroups<D>)>::empty(), entries).len() == entries.map_values(
            |e: (MaterialId, MeshId, Seq<D>)| e.0,
        ).to_set().len(),
    decreases entries.len(),
{
    let r = insert_all(Seq::<(MaterialId, MeshGroups<D>)>::empty(), entries);
    if entries.len() == 0 {
        assert(flat(r) =~= Seq::<D>::empty());
        assert(entries.map_values(|e: (MaterialId, MeshId, Seq<D>)| e.0).to_set() =~= Set::empty());
    } else {
        let p = entries.drop_last();
        let e = entries.last();
        lemma_grouping(p);
        let q = insert_all(Seq::<(MaterialId, MeshGroups<D>)>::empty(), p);
        lemma_inserted(q, e.0, e.1, e.2);
        assert(r == inserted(q, e.0, e.1, e.2));
        assert forall|m: MaterialId| has_material(r, m) <==> exists|i: int|
            0 <= i < entries.len() && (#[trigger] entries[i]).0 == m by {
            if has_material(r, m) && m != e.0 {
                assert(has_material(q, m));
                let i = choose|i: int| 0 <= i < p.len() && (#[trigger] p[i]).0 == m;
                assert(entries[i] == p[i]);
                assert(entries[i].0 == m);
            }
            if m == e.0 {
                assert(entries[entries.len() - 1].0 == m);
            }
            if exists|i: int| 0 <= i < entries.len() && (#[trigger] entries[i]).0 == m {
                let i = choose|i: int| 0 <= i < entries.len() && (#[trigger] entries[i]).0 == m;
                if i < p.len() {
                    assert(p[i] == entries[i]);
                    assert(has_material(q, m));
                } else {
                    assert(entries[i] == e);
                }
            }
        }
        assert forall|m: MaterialId, k: MeshId| has_key(r, m, k) <==> exists|i: int|
            0 <= i < entries.len() && (#[trigger] entries[i]).0 == m && entries[i].1 == k by {
            if has_key(r, m, k) && !(m == e.0 && k == e.1) {
                assert(has_key(q, m, k));
                let i = choose|i: int|
                    0 <= i < p.len() && (#[trigger] p[i]).0 == m && p[i].1 == k;
                assert(entries[i] == p[i]);
            }
            if m == e.0 && k == e.1 {
                assert(entries[entries.len() - 1].0 == m);
            }
            if exists|i: int| 0 <= i < entries.len() && (#[trigger] entries[i]).0 == m
                && entries[i].1 == k {
                let i = choose|i: int|
                    0 <= i < entries.len() && (#[trigger] entries[i]).0 == m && entries[i].1 == k;
                if i < p.len() {
                    assert(p[i] == entries[i]);
                    assert(has_key(q, m, k));
                } else {
                    assert(entries[i] == e);
                }
            }
        }
        let ms = r.map_values(|g: (MaterialId, MeshGroups<D>)| g.0);
        let es = entries.map_values(|x: (MaterialId, MeshId, Seq<D>)| x.0);
        assert(ms.no_duplicates()) by {
            assert forall|a: int, b: int| 0 <= a < ms.len() && 0 <= b < ms.len() && a != b
                implies ms[a] != ms[b] by {
                if a < b {
                    assert(r[a].0 != r[b].0);
                } else {
                    assert(r[b].0 != r[a].0);
                }
            }
        }
        ms.unique_seq_to_set();
        assert(ms.to_set() =~= es.to_set()) by {
            assert forall|m: MaterialId| ms.to_set().contains(m) <==> es.to_set().contains(m) by {
                if ms.contains(m) {
                    let a = choose|a: int| 0 <= a < ms.len() && ms[a] == m;
                    assert(r[a].0 == m);
                    assert(has_material(r, m));
                    let i = choose|i: int| 0 <= i < entries.len() && (#[trigger] entries[i]).0 == m;
                    assert(es[i] == m);
                }
                if es.contains(m) {
                    let i = choose|i: int| 0 <= i < es.len() && es[i] == m;
                    assert(entries[i].0 == m);
                    assert(has_material(r, m));
                    let a = choose|a: int| 0 <= a < r.len() && r[a].0 == m;
                    assert(ms[a] == m);
                }
            }
        }
    }
}


/// Whether the batch has a non-empty group for `(m, k)`.
pub open spec fn has_items<D>(v: MaterialGroups<D>, m: MaterialId, k: MeshId) -> bool {
    exists|i: int, j: int|
        0 <= i < v.len() && 0 <= j < v[i].1.len() && v[i].0 == m && (#[trigger] v[i].1[j]).0 == k
            && v[i].1[j].1.len() > 0
}

proof fn lemma_cleared_no_items<D>(v: MaterialGroups<D>, m: MaterialId, k: MeshId)
    ensures
        !has_items(cleared(v), m, k),
{
    let c = cleared(v);
    if has_items(c, m, k) {
        let (i, j) = choose|i: int, j: int|
            0 <= i < c.len() && 0 <= j < c[i].1.len() && c[i].0 == m && (#[trigger] c[i].1[j]).0
                == k && c[i].1[j].1.len() > 0;
        assert(c[i].1 == cleared_meshes(v[i].1));
        assert(c[i].1[j].1 == Seq::<D>::empty());
    }
}

proof fn lemma_inserted_items<D>(v: MaterialGroups<D>, m: MaterialId, k: MeshId, d: Seq<D>, m2: MaterialId, k2: MeshId)
    requires
        keys_unique(v),
    ensures
        has_items(inserted(v, m, k, d), m2, k2) <==> (has_items(v, m2, k2) || (m2 == m && k2 == k
            && d.len() > 0)),
{
    let r = inserted(v, m, k, d);
    let i0 = material_index(v, m);
    if i0 < 0 {
        if has_items(r, m2, k2) {
            let (a, b) = choose|a: int, b: int|
                0 <= a < r.len() && 0 <= b < r[a].1.len() && r[a].0 == m2 && (#[trigger] r[a].1[b]).0
                    == k2 && r[a].1[b].1.len() > 0;
            if a < v.len() {
                assert(r[a] == v[a]);
                assert(has_items(v, m2, k2));
            } else {
                assert(r[a].1 == seq![(k, d)]);
                assert(r[a].1[b] == (k, d));
            }
        }
        if has_items(v, m2, k2) {
            let (a, b) = choose|a: int, b: int|
                0 <= a < v.len() && 0 <= b < v[a].1.len() && v[a].0 == m2 && (#[trigger] v[a].1[b]).0
                    == k2 && v[a].1[b].1.len() > 0;
            assert(r[a] == v[a]);
            assert(r[a].1[b] == v[a].1[b]);
        }
        if m2 == m && k2 == k && d.len() > 0 {
            let a = v.len() as int;
            assert(r[a].1 == seq![(k, d)]);
            assert(r[a].1[0] == (k, d));
        }
    } else {
        assert(has_material(v, m));
        let gs = v[i0].1;
        let j0 = mesh_index(gs, k);
        let ngs = if j0 < 0 {
            gs.push((k, d))
        } else {
            gs.update(j0, (k, gs[j0].1 + d))
        };
        assert(r == v.update(i0, (m, ngs)));
        assert(meshes_unique(gs));
        if j0 >= 0 {
            assert(has_mesh(gs, k));
        }
        if has_items(r, m2, k2) {
            let (a, b) = choose|a: int, b: int|
                0 <= a < r.len() && 0 <= b < r[a].1.len() && r[a].0 == m2 && (#[trigger] r[a].1[b]).0
                    == k2 && r[a].1[b].1.len() > 0;
            if a != i0 {
                assert(r[a] == v[a]);
                assert(has_items(v, m2, k2));
            } else if j0 < 0 {
                if b < gs.len() {
                    assert(ngs[b] == gs[b]);
                    assert(v[a].1[b] == gs[b]);
                    assert(has_items(v, m2, k2));
                } else {
                    assert(ngs[b] == (k, d));
                }
            } else if b != j0 {
                assert(ngs[b] == gs[b]);
                assert(v[a].1[b] == gs[b]);
                assert(has_items(v, m2, k2));
            } else {
                assert(ngs[b] == (k, gs[j0].1 + d));
                if gs[j0].1.len() > 0 {
                    assert(v[a].1[b] == gs[j0]);
                    assert(has_items(v, m2, k2));
                }
            }
        }
        if has_items(v, m2, k2) {
            let (a, b) = choose|a: int, b: int|
                0 <= a < v.len() && 0 <= b < v[a].1.len() && v[a].0 == m2 && (#[trigger] v[a].1[b]).0
                    == k2 && v[a].1[b].1.len() > 0;
            if a != i0 {
                assert(r[a] == v[a]);
                assert(r[a].1[b] == v[a].1[b]);
            } else if j0 < 0 || b != j0 {
                assert(ngs[b] == gs[b]);
                assert(r[a].1[b] == v[a].1[b]);
            } else {
                assert(r[a].1[b] == (k, gs[j0].1 + d));
                assert(r[a].1[b].1.len() > 0);
            }
        }
        if m2 == m && k2 == k && d.len() > 0 {
            if j0 < 0 {
                assert(r[i0].1[gs.len() as int] == (k, d));
            } else {
                assert(r[i0].1[j0] == (k, gs[j0].1 + d));
                assert(r[i0].1[j0].1.len() > 0);
            }
        }
    }
}

proof fn lemma_nonempty_meshes_has<D>(gs: MeshGroups<D>, k: MeshId)
    ensures
        has_mesh(nonempty_meshes(gs), k) <==> exists|j: int|
            0 <= j < gs.len() && (#[trigger] gs[j]).0 == k && gs[j].1.len() > 0,
    decreases gs.len(),
{
    if gs.len() > 0 {
        let p = gs.drop_last();
        lemma_nonempty_meshes_has(p, k);
        let n = nonempty_meshes(gs);
        let np = nonempty_meshes(p);
        if has_mesh(n, k) {
            let a = choose|a: int| 0 <= a < n.len() && n[a].0 == k;
            if a < np.len() {
                if gs.last().1.len() > 0 {
                    assert(n == np.push(gs.last()));
                }
                assert(n[a] == np[a]);
                assert(has_mesh(np, k));
                let j = choose|j: int| 0 <= j < p.len() && (#[trigger] p[j]).0 == k && p[j].1.len() > 0;
                assert(gs[j] == p[j]);
            } else {
                assert(n == np.push(gs.last()));
                assert(gs[gs.len() - 1] == gs.last());
            }
        }
        if exists|j: int| 0 <= j < gs.len() && (#[trigger] gs[j]).0 == k && gs[j].1.len() > 0 {
            let j = choose|j: int| 0 <= j < gs.len() && (#[trigger] gs[j]).0 == k && gs[j].1.len() > 0;
            if j < p.len() {
                assert(p[j] == gs[j]);
                assert(has_mesh(np, k));
                let a = choose|a: int| 0 <= a < np.len() && np[a].0 == k;
                if gs.last().1.len() > 0 {
                    assert(n == np.push(gs.last()));
                }
                assert(n[a] == np[a]);
            } else {
                assert(gs[j] == gs.last());
                assert(n == np.push(gs.last()));
                assert(n[np.len() as int].0 == k);
            }
        }
    }
}

proof fn lemma_pruned_has<D>(v: MaterialGroups<D>, m: MaterialId, k: MeshId)
    ensures
        has_key(pruned(v), m, k) <==> has_items(v, m, k),
        has_material(pruned(v), m) <==> exists|k2: MeshId| has_items(v, m, k2),
    decreases v.len(),
{
    if v.len() > 0 {
        let p = v.drop_last();
        let last = v.last();
        let pp = pruned(p);
        let r = pruned(v);
        let ms = nonempty_meshes(last.1);
        lemma_pruned_has(p, m, k);
        lemma_nonempty_meshes_has(last.1, k);
        assert(last == v[v.len() - 1]);
        if ms.len() > 0 {
            assert(r == pp.push((last.0, ms)));
        } else {
            assert(r == pp);
        }
        // keys
        if has_key(r, m, k) {
            let a = choose|a: int| 0 <= a < r.len() && r[a].0 == m && has_mesh(#[trigger] r[a].1, k);
            if a < pp.len() {
                assert(r[a] == pp[a]);
                assert(has_key(pp, m, k));
                let (i, j) = choose|i: int, j: int|
                    0 <= i < p.len() && 0 <= j < p[i].1.len() && p[i].0 == m && (#[trigger] p[i].1[j]).0
                        == k && p[i].1[j].1.len() > 0;
                assert(v[i] == p[i]);
                assert(has_items(v, m, k));
            } else {
                let j = choose|j: int|
                    0 <= j < last.1.len() && (#[trigger] last.1[j]).0 == k && last.1[j].1.len() > 0;
                assert(v[v.len() - 1].1[j] == last.1[j]);
                assert(has_items(v, m, k));
            }
        }
        if has_items(v, m, k) {
            let (i, j) = choose|i: int, j: int|
                0 <= i < v.len() && 0 <= j < v[i].1.len() && v[i].0 == m && (#[trigger] v[i].1[j]).0 == k
                    && v[i].1[j].1.len() > 0;
            if i < p.len() {
                assert(p[i] == v[i]);
                assert(p[i].1[j] == v[i].1[j]);
                assert(has_items(p, m, k));
                let a = choose|a: int| 0 <= a < pp.len() && pp[a].0 == m && has_mesh(#[trigger] pp[a].1, k);
                assert(r[a] == pp[a]);
            } else {
                assert(last.1[j] == v[i].1[j]);
                assert(has_mesh(ms, k));
                assert(r[pp.len() as int] == (last.0, ms));
                assert(has_mesh(r[pp.len() as int].1, k));
            }
        }
        // materials
        if has_material(r, m) {
            let a = choose|a: int| 0 <= a < r.len() && r[a].0 == m;
            if a < pp.len() {
                assert(r[a] == pp[a]);
                assert(has_material(pp, m));
                let k2 = choose|k2: MeshId| has_items(p, m, k2);
                lemma_pruned_has(p, m, k2);
                let (i, j) = choose|i: int, j: int|
                    0 <= i < p.len() && 0 <= j < p[i].1.len() && p[i].0 == m && (#[trigger] p[i].1[j]).0
                        == k2 && p[i].1[j].1.len() > 0;
                assert(v[i] == p[i]);
                assert(has_items(v, m, k2));
            } else {
                let k2 = ms[0].0;
                assert(ms[0].0 == k2);
                assert(has_mesh(ms, k2));
                lemma_nonempty_meshes_has(last.1, k2);
                let j = choose|j: int|
                    0 <= j < last.1.len() && (#[trigger] last.1[j]).0 == k2 && last.1[j].1.len() > 0;
                assert(v[v.len() - 1].1[j] == last.1[j]);
                assert(has_items(v, m, k2));
            }
        }
        if exists|k2: MeshId| has_items(v, m, k2) {
            let k2 = choose|k2: MeshId| has_items(v, m, k2);
            let (i, j) = choose|i: int, j: int|
                0 <= i < v.len() && 0 <= j < v[i].1.len() && v[i].0 == m && (#[trigger] v[i].1[j]).0 == k2
                    && v[i].1[j].1.len() > 0;
            if i < p.len() {
                assert(p[i] == v[i]);
                assert(p[i].1[j] == v[i].1[j]);
                assert(has_items(p, m, k2));
                lemma_pruned_has(p, m, k2);
                let a = choose|a: int| 0 <= a < pp.len() && pp[a].0 == m;
                assert(r[a] == pp[a]);
            } else {
                lemma_nonempty_meshes_has(last.1, k2);
                assert(last.1[j] == v[i].1[j]);
                assert(has_mesh(ms, k2));
                assert(r[pp.len() as int].0 == m);
            }
        }
    }
}

proof fn lemma_insert_all_items<D>(v: MaterialGroups<D>, entries: Seq<(MaterialId, MeshId, Seq<D>)>)
    requires
        keys_unique(v),
        forall|i: int| 0 <= i < entries.len() ==> (#[trigger] entries[i]).2.len() > 0,
    ensures
        keys_unique(insert_all(v, entries)),
        flat(insert_all(v, entries)).len() == flat(v).len() + payloads(entries).len(),
        forall|m: MaterialId, k: MeshId|
            #[trigger] has_items(insert_all(v, entries), m, k) <==> (has_items(v, m, k) || exists|i: int|
                0 <= i < entries.len() && (#[trigger] entries[i]).0 == m && entries[i].1 == k),
    decreases entries.len(),
{
    if entries.len() > 0 {
        let p = entries.drop_last();
        let e = entries.last();
        assert forall|i: int| 0 <= i < p.len() implies (#[trigger] p[i]).2.len() > 0 by {
            assert(p[i] == entries[i]);
        }
        lemma_insert_all_items(v, p);
        let q = insert_all(v, p);
        let r = insert_all(v, entries);
        assert(r == inserted(q, e.0, e.1, e.2));
        lemma_inserted(q, e.0, e.1, e.2);
        assert(e == entries[entries.len() - 1]);
        assert forall|m: MaterialId, k: MeshId|
            has_items(r, m, k) <==> (has_items(v, m, k) || exists|i: int|
                0 <= i < entries.len() && (#[trigger] entries[i]).0 == m && entries[i].1 == k) by {
            lemma_inserted_items(q, e.0, e.1, e.2, m, k);
            let in_p = exists|i: int| 0 <= i < p.len() && (#[trigger] p[i]).0 == m && p[i].1 == k;
            let in_e = exists|i: int|
                0 <= i < entries.len() && (#[trigger] entries[i]).0 == m && entries[i].1 == k;
            assert(has_items(q, m, k) <==> (has_items(v, m, k) || in_p));
            if in_p {
                let i = choose|i: int| 0 <= i < p.len() && (#[trigger] p[i]).0 == m && p[i].1 == k;
                assert(i < entries.len());
                assert(p[i] == entries[i]);
                assert(in_e);
            }
            if m == e.0 && k == e.1 {
                assert(entries[entries.len() - 1].0 == m);
                assert(in_e);
            }
            if in_e {
                let i = choose|i: int|
                    0 <= i < entries.len() && (#[trigger] entries[i]).0 == m && entries[i].1 == k;
                if i < p.len() {
                    assert(p[i] == entries[i]);
                    assert(in_p);
                } else {
                    assert(entries[i] == e);
                }
            }
        }
    }
}


/// The payloads of the entries keyed `(m, k)`, concatenated in order.
pub open spec fn keyed<D>(entries: Seq<(MaterialId, MeshId, Seq<D>)>, m: MaterialId, k: MeshId) -> Seq<D>
    decreases entries.len(),
{
    if entries.len() == 0 {
        Seq::empty()
    } else {
        let e = entries.last();
        keyed(entries.drop_last(), m, k) + if e.0 == m && e.1 == k {
            e.2
        } else {
            Seq::empty()
        }
    }
}

/// Every group holds exactly the payloads of the entries with its key.
pub open spec fn holds_keyed<D>(v: MaterialGroups<D>, entries: Seq<(MaterialId, MeshId, Seq<D>)>) -> bool {
    forall|i: int, j: int|
        0 <= i < v.len() && 0 <= j < v[i].1.len() ==> (#[trigger] v[i].1[j]).1 == keyed(
            entries,
            v[i].0,
            v[i].1[j].0,
        )
}

proof fn lemma_keyed_absent<D>(entries: Seq<(MaterialId, MeshId, Seq<D>)>, m: MaterialId, k: MeshId)
    requires
        forall|i: int| 0 <= i < entries.len() ==> !((#[trigger] entries[i]).0 == m && entries[i].1 == k),
    ensures
        keyed(entries, m, k) == Seq::<D>::empty(),
    decreases entries.len(),
{
    if entries.len() > 0 {
        let p = entries.drop_last();
        assert forall|i: int| 0 <= i < p.len() implies !((#[trigger] p[i]).0 == m && p[i].1 == k) by {
            assert(p[i] == entries[i]);
        }
        lemma_keyed_absent(p, m, k);
        assert(entries.last() == entries[entries.len() - 1]);
        assert(keyed(entries, m, k) =~= Seq::<D>::empty());
    }
}

proof fn lemma_insert_all_keyed<D>(v: MaterialGroups<D>, entries: Seq<(MaterialId, MeshId, Seq<D>)>)
    requires
        keys_unique(v),
        forall|i: int, j: int|
            0 <= i < v.len() && 0 <= j < v[i].1.len() ==> (#[trigger] v[i].1[j]).1.len() == 0,
    ensures
        holds_keyed(insert_all(v, entries), entries),
        keys_unique(insert_all(v, entries)),
        forall|i: int| 0 <= i < entries.len() ==> has_key(insert_all(v, entries), (#[trigger] entries[i]).0, entries[i].1),
    decreases entries.len(),
{
    if entries.len() == 0 {
        assert forall|i: int, j: int|
            0 <= i < v.len() && 0 <= j < v[i].1.len() implies (#[trigger] v[i].1[j]).1 == keyed(
            entries,
            v[i].0,
            v[i].1[j].0,
        ) by {
            assert(v[i].1[j].1 =~= Seq::<D>::empty());
        }
    } else {
        let p = entries.drop_last();
        let e = entries.last();
        lemma_insert_all_keyed(v, p);
        let w = insert_all(v, p);
        let r = insert_all(v, entries);
        assert(r == inserted(w, e.0, e.1, e.2));
        lemma_inserted(w, e.0, e.1, e.2);
        assert(e == entries[entries.len() - 1]);
        let i0 = material_index(w, e.0);
        assert forall|i: int, j: int|
            0 <= i < r.len() && 0 <= j < r[i].1.len() implies (#[trigger] r[i].1[j]).1 == keyed(
            entries,
            r[i].0,
            r[i].1[j].0,
        ) by {
            let m2 = r[i].0;
            let k2 = r[i].1[j].0;
            let same = m2 == e.0 && k2 == e.1;
            assert(keyed(entries, m2, k2) == keyed(p, m2, k2) + if same {
                e.2
            } else {
                Seq::<D>::empty()
            });
            if i0 < 0 {
                if i < w.len() {
                    assert(r[i] == w[i]);
                    assert(w[i].1[j].1 == keyed(p, m2, k2));
                    if same {
                        assert(has_material(w, e.0));
                    }
                    assert(keyed(entries, m2, k2) =~= keyed(p, m2, k2));
                } else {
                    assert(r[i].1 == seq![(e.1, e.2)]);
                    assert(r[i].1[j] == (e.1, e.2));
                    assert forall|c: int| 0 <= c < p.len() implies !((#[trigger] p[c]).0 == m2
                        && p[c].1 == k2) by {
                        if p[c].0 == m2 && p[c].1 == k2 {
                            assert(has_key(w, p[c].0, p[c].1));
                            assert(has_material(w, e.0));
                        }
                    }
                    lemma_keyed_absent(p, m2, k2);
                    assert(keyed(entries, m2, k2) =~= e.2);
                }
            } else {
                assert(has_material(w, e.0));
                let gs = w[i0].1;
                let j0 = mesh_index(gs, e.1);
                assert(meshes_unique(gs));
                if i != i0 {
                    assert(r[i] == w[i]);
                    assert(w[i].1[j].1 == keyed(p, m2, k2));
                    assert(w[i].0 != w[i0].0);
                    assert(keyed(entries, m2, k2) =~= keyed(p, m2, k2));
                } else if j0 < 0 {
                    if j < gs.len() {
                        assert(r[i].1[j] == gs[j]);
                        assert(w[i].1[j] == gs[j]);
                        assert(gs[j].0 != e.1);
                        assert(keyed(entries, m2, k2) =~= keyed(p, m2, k2));
                    } else {
                        assert(r[i].1[j] == (e.1, e.2));
                        assert forall|c: int| 0 <= c < p.len() implies !((#[trigger] p[c]).0 == m2
                            && p[c].1 == k2) by {
                            if p[c].0 == m2 && p[c].1 == k2 {
                                assert(has_key(w, m2, k2));
                                let a = choose|a: int|
                                    0 <= a < w.len() && w[a].0 == m2 && has_mesh(#[trigger] w[a].1, k2);
                                assert(a == i0);
                                assert(has_mesh(gs, e.1));
                            }
                        }
                        lemma_keyed_absent(p, m2, k2);
                        assert(keyed(entries, m2, k2) =~= e.2);
                    }
                } else {
                    assert(has_mesh(gs, e.1));
                    if j != j0 {
                        assert(r[i].1[j] == gs[j]);
                        assert(w[i].1[j] == gs[j]);
                        assert(gs[j].0 != gs[j0].0);
                        assert(keyed(entries, m2, k2) =~= keyed(p, m2, k2));
                    } else {
                        assert(r[i].1[j] == (e.1, gs[j0].1 + e.2));
                        assert(w[i].1[j] == gs[j0]);
                    }
                }
            }
        }
        assert forall|i: int| 0 <= i < entries.len() implies has_key(r, (#[trigger] entries[i]).0, entries[i].1) by {
            if i < p.len() {
                assert(p[i] == entries[i]);
                assert(has_key(w, p[i].0, p[i].1));
            } else {
                assert(entries[i] == e);
            }
            let hw = has_key(w, entries[i].0, entries[i].1);
            assert(hw || !hw);
            assert(has_key(inserted(w, e.0, e.1, e.2), entries[i].0, entries[i].1));
        }
    }
}

proof fn lemma_pruned_keyed<D>(v: MaterialGroups<D>, entries: Seq<(MaterialId, MeshId, Seq<D>)>)
    requires
        holds_keyed(v, entries),
    ensures
        holds_keyed(pruned(v), entries),
    decreases v.len(),
{
    if v.len() > 0 {
        let p = v.drop_last();
        let last = v.last();
        assert(last == v[v.len() - 1]);
        assert forall|i: int, j: int|
            0 <= i < p.len() && 0 <= j < p[i].1.len() implies (#[trigger] p[i].1[j]).1 == keyed(
            entries,
            p[i].0,
            p[i].1[j].0,
        ) by {
            assert(p[i] == v[i]);
        }
        lemma_pruned_keyed(p, entries);
        lemma_nonempty_meshes(last.1);
        let ms = nonempty_meshes(last.1);
        let pp = pruned(p);
        let r = pruned(v);
        if ms.len() > 0 {
            assert(r == pp.push((last.0, ms)));
            assert forall|i: int, j: int|
                0 <= i < r.len() && 0 <= j < r[i].1.len() implies (#[trigger] r[i].1[j]).1 == keyed(
                entries,
                r[i].0,
                r[i].1[j].0,
            ) by {
                if i < pp.len() {
                    assert(r[i] == pp[i]);
                } else {
                    let b = choose|b: int| 0 <= b < last.1.len() && #[trigger] ms[j] == last.1[b];
                    assert(v[v.len() - 1].1[b] == last.1[b]);
                }
            }
        }
    }
}

/// A batch as a frame leaves it (emptied, refilled, pruned) has one group
/// per material that the frame's entries name, within it one group per mesh
/// that they name with that material, each holding exactly the payloads of
/// the entries with its key, in order: nothing of earlier frames remains.
pub proof fn lemma_frame_grouping<D>(v: MaterialGroups<D>, entries: Seq<(MaterialId, MeshId, Seq<D>)>)
    requires
        keys_unique(v),
        forall|i: int| 0 <= i < entries.len() ==> (#[trigger] entries[i]).2.len() > 0,
    ensures
        keys_unique(pruned(insert_all(cleared(v), entries))),
        flat(pruned(insert_all(cleared(v), entries))).len() == payloads(entries).len(),
        forall|m: MaterialId|
            has_material(pruned(insert_all(cleared(v), entries)), m) <==> exists|i: int|
                0 <= i < entries.len() && (#[trigger] entries[i]).0 == m,
        forall|m: MaterialId, k: MeshId|
            has_key(pruned(insert_all(cleared(v), entries)), m, k) <==> exists|i: int|
                0 <= i < entries.len() && (#[trigger] entries[i]).0 == m && entries[i].1 == k,
        holds_keyed(pruned(insert_all(cleared(v), entries)), entries),
{
    let c = cleared(v);
    lemma_cleared(v);
    assert forall|i: int, j: int|
        0 <= i < c.len() && 0 <= j < c[i].1.len() implies (#[trigger] c[i].1[j]).1.len() == 0 by {
        assert(c[i].1 == cleared_meshes(v[i].1));
    }
    lemma_insert_all_keyed(c, entries);
    lemma_pruned_keyed(insert_all(c, entries), entries);
    lemma_insert_all_items(c, entries);
    let w = insert_all(c, entries);
    lemma_pruned(w);
    assert forall|m: MaterialId, k: MeshId|
        has_key(pruned(w), m, k) <==> exists|i: int|
            0 <= i < entries.len() && (#[trigger] entries[i]).0 == m && entries[i].1 == k by {
        lemma_pruned_has(w, m, k);
        lemma_cleared_no_items(v, m, k);
    }
    assert forall|m: MaterialId|
        has_material(pruned(w), m) <==> exists|i: int|
            0 <= i < entries.len() && (#[trigger] entries[i]).0 == m by {
        lemma_pruned_has(w, m, 0);
        if has_material(pruned(w), m) {
            let k2 = choose|k2: MeshId| has_items(w, m, k2);
            lemma_cleared_no_items(v, m, k2);
            let i = choose|i: int|
                0 <= i < entries.len() && (#[trigger] entries[i]).0 == m && entries[i].1 == k2;
        }
        if exists|i: int| 0 <= i < entries.len() && (#[trigger] entries[i]).0 == m {
            let i = choose|i: int| 0 <= i < entries.len() && (#[trigger] entries[i]).0 == m;
            let k = entries[i].1;
            assert(exists|i2: int|
                0 <= i2 < entries.len() && (#[trigger] entries[i2]).0 == m && entries[i2].1 == k);
            assert(has_items(w, m, k));
        }
    }
}

proof fn lemma_nonempty_meshes_keeps<D>(gs: MeshGroups<D>)
    requires
        forall|j: int| 0 <= j < gs.len() ==> (#[trigger] gs[j]).1.len() > 0,
    ensures
        nonempty_meshes(gs) == gs,
    decreases gs.len(),
{
    if gs.len() > 0 {
        let p = gs.drop_last();
        assert forall|j: int| 0 <= j < p.len() implies (#[trigger] p[j]).1.len() > 0 by {
            assert(p[j] == gs[j]);
        }
        lemma_nonempty_meshes_keeps(p);
        assert(gs.last().1.len() > 0);
        assert(p.push(gs.last()) =~= gs);
    }
}

proof fn lemma_pruned_keeps<D>(v: MaterialGroups<D>)
    requires
        all_nonempty(v),
    ensures
        pruned(v) == v,
    decreases v.len(),
{
    if v.len() > 0 {
        let p = v.drop_last();
        assert(all_nonempty(p)) by {
            assert forall|i: int| 0 <= i < p.len() implies {
                &&& (#[trigger] p[i]).1.len() > 0
                &&& forall|j: int| 0 <= j < p[i].1.len() ==> (#[trigger] p[i].1[j]).1.len() > 0
            } by {
                assert(p[i] == v[i]);
            }
        }
        lemma_pruned_keeps(p);
        let last = v[v.len() - 1];
        assert(last.1.len() > 0);
        assert forall|j: int| 0 <= j < last.1.len() implies (#[trigger] last.1[j]).1.len() > 0 by {
            assert(v[v.len() - 1].1[j].1.len() > 0);
        }
        lemma_nonempty_meshes_keeps(last.1);
        assert(p.push((last.0, last.1)) =~= v);
    }
}

/// Pruning twice with nothing inserted between leaves what pruning once left.
pub proof fn lemma_prune_twice<D>(v: MaterialGroups<D>)
    requires
        keys_unique(v),
    ensures
        pruned(pruned(v)) == pruned(v),
{
    lemma_pruned(v);
    lemma_pruned_keeps(pruned(v));
}

proof fn lemma_flat_push<D>(v: MaterialGroups<D>, x: (MaterialId, MeshGroups<D>))
    ensures
        flat(v.push(x)) == flat(v) + flat_meshes(x.1),
{
    assert(v.push(x).drop_last() =~= v);
}

proof fn lemma_flat_meshes_push<D>(gs: MeshGroups<D>, x: (MeshId, Seq<D>))
    ensures
        flat_meshes(gs.push(x)) == flat_meshes(gs) + x.1,
{
    assert(gs.push(x).drop_last() =~= gs);
}

proof fn lemma_flat_meshes_update_len<D>(gs: MeshGroups<D>, j: int, x: (MeshId, Seq<D>))
    requires
        0 <= j < gs.len(),
    ensures
        flat_meshes(gs.update(j, x)).len() == flat_meshes(gs).len() - gs[j].1.len() + x.1.len(),
    decreases gs.len(),
{
    let u = gs.update(j, x);
    if j == gs.len() - 1 {
        assert(u.drop_last() =~= gs.drop_last());
    } else {
        assert(u.drop_last() =~= gs.drop_last().update(j, x));
        lemma_flat_meshes_update_len(gs.drop_last(), j, x);
    }
}

proof fn lemma_flat_update_len<D>(v: MaterialGroups<D>, i: int, x: (MaterialId, MeshGroups<D>))
    requires
        0 <= i < v.len(),
    ensures
        flat(v.update(i, x)).len() == flat(v).len() - flat_meshes(v[i].1).len() + flat_meshes(
            x.1,
        ).len(),
    decreases v.len(),
{
    let u = v.update(i, x);
    if i == v.len() - 1 {
        assert(u.drop_last() =~= v.drop_last());
    } else {
        assert(u.drop_last() =~= v.drop_last().update(i, x));
        lemma_flat_update_len(v.drop_last(), i, x);
    }
}

/// Appending under a key keeps each key unique, adds exactly that key, and
/// adds exactly the appended instances to the stream.
pub proof fn lemma_inserted<D>(v: MaterialGroups<D>, m: MaterialId, k: MeshId, d: Seq<D>)
    requires
        keys_unique(v),
    ensures
        keys_unique(inserted(v, m, k, d)),
        flat(inserted(v, m, k, d)).len() == flat(v).len() + d.len(),
        forall|m2: MaterialId|
            has_material(inserted(v, m, k, d), m2) <==> (has_material(v, m2) || m2 == m),
        forall|m2: MaterialId, k2: MeshId|
            has_key(inserted(v, m, k, d), m2, k2) <==> (has_key(v, m2, k2) || (m2 == m && k2
                == k)),
{
    let r = inserted(v, m, k, d);
    let i = material_index(v, m);
    if i < 0 {
        lemma_flat_push(v, (m, seq![(k, d)]));
        lemma_flat_meshes_push(Seq::<(MeshId, Seq<D>)>::empty(), (k, d));
        assert(Seq::<(MeshId, Seq<D>)>::empty().push((k, d)) =~= seq![(k, d)]);
        assert(flat_meshes(Seq::<(MeshId, Seq<D>)>::empty()) =~= Seq::<D>::empty());
        assert forall|m2: MaterialId| has_material(r, m2) <==> (has_material(v, m2) || m2 == m) by {
            if has_material(r, m2) {
                let a = choose|a: int| 0 <= a < r.len() && r[a].0 == m2;
                if a < v.len() {
                    assert(r[a] == v[a]);
                }
            }
            if has_material(v, m2) {
                let a = choose|a: int| 0 <= a < v.len() && v[a].0 == m2;
                assert(r[a] == v[a]);
            }
            if m2 == m {
                assert(r[v.len() as int].0 == m);
            }
        }
        assert forall|m2: MaterialId, k2: MeshId|
            has_key(r, m2, k2) <==> (has_key(v, m2, k2) || (m2 == m && k2 == k)) by {
            if has_key(r, m2, k2) {
                let a = choose|a: int| 0 <= a < r.len() && r[a].0 == m2 && has_mesh(#[trigger] r[a].1, k2);
                if a < v.len() {
                    assert(r[a] == v[a]);
                } else {
                    let b = choose|b: int| 0 <= b < r[a].1.len() && r[a].1[b].0 == k2;
                    assert(r[a].1[b] == (k, d));
                }
            }
            if has_key(v, m2, k2) {
                let a = choose|a: int| 0 <= a < v.len() && v[a].0 == m2 && has_mesh(#[trigger] v[a].1, k2);
                assert(r[a] == v[a]);
            }
            if m2 == m && k2 == k {
                assert(r[v.len() as int].1[0].0 == k);
                assert(has_mesh(r[v.len() as int].1, k));
            }
        }
    } else {
        assert(has_material(v, m));
        let gs = v[i].1;
        let j = mesh_index(gs, k);
        assert(meshes_unique(gs));
        let ngs = if j < 0 {
            gs.push((k, d))
        } else {
            gs.update(j, (k, gs[j].1 + d))
        };
        assert(r == v.update(i, (m, ngs)));
        lemma_flat_update_len(v, i, (m, ngs));
        if j < 0 {
            lemma_flat_meshes_push(gs, (k, d));
            assert forall|a: int, b: int| 0 <= a < b < ngs.len() implies ngs[a].0 != ngs[b].0 by {
                if b == gs.len() {
                    assert(ngs[a] == gs[a]);
                }
            }
        } else {
            assert(has_mesh(gs, k));
            lemma_flat_meshes_update_len(gs, j, (k, gs[j].1 + d));
        }
        assert(meshes_unique(ngs));
        assert forall|c: int| 0 <= c < r.len() implies meshes_unique(#[trigger] r[c].1) by {
            if c != i {
                assert(r[c] == v[c]);
            }
        }
        assert forall|m2: MaterialId| has_material(r, m2) <==> (has_material(v, m2) || m2 == m) by {
            if has_material(r, m2) {
                let a = choose|a: int| 0 <= a < r.len() && r[a].0 == m2;
                if a != i {
                    assert(r[a] == v[a]);
                }
            }
            if has_material(v, m2) {
                let a = choose|a: int| 0 <= a < v.len() && v[a].0 == m2;
                if a != i {
                    assert(r[a] == v[a]);
                }
            }
            if m2 == m {
                assert(r[i].0 == m);
            }
        }
        assert forall|m2: MaterialId, k2: MeshId|
            has_key(r, m2, k2) <==> (has_key(v, m2, k2) || (m2 == m && k2 == k)) by {
            if has_key(r, m2, k2) {
                let a = choose|a: int| 0 <= a < r.len() && r[a].0 == m2 && has_mesh(#[trigger] r[a].1, k2);
                if a != i {
                    assert(r[a] == v[a]);
                } else if k2 != k {
                    let b = choose|b: int| 0 <= b < ngs.len() && ngs[b].0 == k2;
                    if j < 0 {
                        assert(b < gs.len());
                        assert(ngs[b] == gs[b]);
                    } else {
                        assert(b != j);
                        assert(ngs[b] == gs[b]);
                    }
                    assert(has_mesh(v[a].1, k2));
                }
            }
            if has_key(v, m2, k2) {
                let a = choose|a: int| 0 <= a < v.len() && v[a].0 == m2 && has_mesh(#[trigger] v[a].1, k2);
                if a != i {
                    assert(r[a] == v[a]);
                } else {
                    let b = choose|b: int| 0 <= b < gs.len() && gs[b].0 == k2;
                    if j < 0 || b != j {
                        assert(ngs[b] == gs[b]);
                    } else {
                        assert(ngs[b].0 == k2);
                    }
                    assert(has_mesh(r[a].1, k2));
                }
            }
            if m2 == m && k2 == k {
                if j < 0 {
                    assert(ngs[gs.len() as int].0 == k);
                } else {
                    assert(ngs[j].0 == k);
                }
                assert(has_mesh(r[i].1, k));
            }
        }
    }
}

} // verus!
