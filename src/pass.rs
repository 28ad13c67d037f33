use vstd::prelude::*;

use crate::change::ChangeDetection;
use crate::frame::FrameBuffers;
use crate::gather::{
    gather, gather_skinned_ordered, gather_static, gather_static_ordered, joint_count,
    lemma_gather_interns, lemma_static_records, selected_count, static_records, AssetState,
    EntityData,
};
use crate::ids::{GroupRange, InstanceRecord, JointMatrix, MaterialId, MeshId};
use crate::material::{is_loaded, InternerView, MaterialInterner};
use crate::ordered::{fill, lemma_fill_keeps_order, tiles, OrderedTwoLevelBatch};
use crate::skinning::SkinningAggregator;
use crate::unordered::{
    all_nonempty, cleared, flat, insert_all, keys_unique, lemma_prune_twice, lemma_pruned, pruned, ranges_of, MaterialGroups, MeshGroups, TwoLevelBatch,
};

verus! {

/// A per-vertex attribute that a pass reads from its meshes.
#[derive(Clone, Copy, Debug, PartialEq, Eq, Structural)]
pub enum VertexAttribute {
    Position,
    Normal,
    TexCoord,
    JointCombined,
}

/// Fixed-function settings of a pass's pipelines.
#[derive(Clone, Copy, Debug, PartialEq, Eq, Structural)]
pub struct PipelineSettings {
    /// Back faces are culled.
    pub cull_back_faces: bool,
    /// The depth test passes on a smaller depth, and writes depth when set.
    pub depth_write: bool,
    /// Colour is blended with premultiplied alpha.
    pub premultiplied_blend: bool,
}

/// The pipeline settings of an opaque pass (`transparent` false) or of a
/// transparent one: a transparent pass blends and does not write depth.
pub open spec fn pipeline_settings_spec(transparent: bool) -> PipelineSettings {
    PipelineSettings {
        cull_back_faces: true,
        depth_write: !transparent,
        premultiplied_blend: transparent,
    }
}

/// The pipeline settings of an opaque or a transparent pass.
pub fn pipeline_settings(transparent: bool) -> (r: PipelineSettings)
    ensures
        r == pipeline_settings_spec(transparent),
{
    PipelineSettings { cull_back_faces: true, depth_write: !transparent, premultiplied_blend: transparent }
}

/// What `prepare` tells the scheduler: record the draw commands again,
/// reuse those recorded for this slot before, or skip the pass this frame
/// because there is nothing to draw.
#[derive(Clone, Copy, Debug, PartialEq, Eq, Structural)]
pub enum PrepareResult {
    DrawRecord,
    DrawReuse,
    Skip,
}

/// Whether writing `data` is a change from the write before it, `prev`:
/// a non-empty stream that differs, or the first one.
pub open spec fn stream_changed(prev: Option<Seq<InstanceRecord>>, data: Seq<InstanceRecord>) -> bool {
    data.len() > 0 && match prev {
        Some(p) => p != data,
        None => true,
    }
}

/// Where a draw group is in its life: built, prepared for a frame, drawn, or
/// disposed (after which it is inert).
#[derive(Clone, Copy, Debug, PartialEq, Eq, Structural)]
pub enum DrawState {
    Built,
    Prepared,
    Drawn,
    Disposed,
}

/// A mesh that is resident at draw time, with the vertex attributes it offers.
pub struct ResidentMesh {
    pub id: MeshId,
    pub attributes: Vec<VertexAttribute>,
}

/// Whether mesh `id` is resident and offers every attribute of `required`.
pub open spec fn mesh_fits(meshes: Seq<ResidentMesh>, id: MeshId, required: Seq<VertexAttribute>) -> bool {
    exists|i: int|
        0 <= i < meshes.len() && (#[trigger] meshes[i]).id == id && lacking(
            required,
            meshes[i].attributes@,
        ).len() == 0
}

/// Whether mesh `id` is resident and offers every attribute of `required`.
pub fn fits(meshes: &Vec<ResidentMesh>, id: MeshId, required: &Vec<VertexAttribute>) -> (r: bool)
    ensures
        r == mesh_fits(meshes@, id, required@),
{
    let mut k: usize = 0;
    while k < meshes.len()
        invariant
            0 <= k <= meshes@.len(),
            forall|c: int|
                0 <= c < k ==> !((#[trigger] meshes@[c]).id == id && lacking(
                    required@,
                    meshes@[c].attributes@,
                ).len() == 0),
        decreases meshes@.len() - k,
    {
        if meshes[k].id == id && missing_attributes(required, &meshes[k].attributes).len() == 0 {
            return true;
        }
        k = k + 1;
    }
    false
}

/// The groups that can be drawn: those whose material is ready to bind and
/// whose mesh is still resident with every attribute of `required`, in order.
pub open spec fn drawable(
    groups: Seq<GroupRange>,
    iv: InternerView,
    meshes: Seq<ResidentMesh>,
    required: Seq<VertexAttribute>,
) -> Seq<GroupRange>
    decreases groups.len(),
{
    if groups.len() == 0 {
        Seq::empty()
    } else {
        let p = drawable(groups.drop_last(), iv, meshes, required);
        let g = groups.last();
        if is_loaded(iv, g.material) && mesh_fits(meshes, g.mesh, required) {
            p.push(g)
        } else {
            p
        }
    }
}

/// The draw calls for `groups`: one per group whose material is ready and
/// whose mesh is resident with every attribute of `required`; the others are
/// left out this frame.
pub fn draw_calls(
    groups: &Vec<GroupRange>,
    materials: &MaterialInterner,
    meshes: &Vec<ResidentMesh>,
    required: &Vec<VertexAttribute>,
) -> (r: Vec<GroupRange>)
    ensures
        r@ == drawable(groups@, materials@, meshes@, required@),
{
    let mut out: Vec<GroupRange> = Vec::new();
    let mut i: usize = 0;
    while i < groups.len()
        invariant
            0 <= i <= groups@.len(),
            out@ == drawable(groups@.take(i as int), materials@, meshes@, required@),
        decreases groups@.len() - i,
    {
        proof {
            assert(groups@.take(i + 1).drop_last() =~= groups@.take(i as int));
            assert(groups@.take(i + 1).last() == groups@[i as int]);
        }
        let g = groups[i];
        if materials.loaded(g.material) && fits(meshes, g.mesh, required) {
            out.push(g);
        }
        i = i + 1;
    }
    proof {
        assert(groups@.take(i as int) =~= groups@);
    }
    out
}

/// A group is drawn exactly when its material is ready and its mesh is
/// resident with the attributes the pass requires: a group whose material is not ready is left out, and is drawn
/// from the same batch as soon as the material is ready, with nothing
/// inserted again.
pub proof fn lemma_drawable(
    groups: Seq<GroupRange>,
    iv: InternerView,
    meshes: Seq<ResidentMesh>,
    required: Seq<VertexAttribute>,
)
    ensures
        forall|g: GroupRange|
            drawable(groups, iv, meshes, required).contains(g) <==> (groups.contains(g) && is_loaded(
                iv,
                g.material,
            ) && mesh_fits(meshes, g.mesh, required)),
    decreases groups.len(),
{
    if groups.len() > 0 {
        let p = groups.drop_last();
        lemma_drawable(p, iv, meshes, required);
        let d = drawable(groups, iv, meshes, required);
        let dp = drawable(p, iv, meshes, required);
        let last = groups.last();
        assert forall|g: GroupRange|
            d.contains(g) <==> (groups.contains(g) && is_loaded(iv, g.material) && mesh_fits(meshes, g.mesh, required)) by {
            if d.contains(g) {
                let a = choose|a: int| 0 <= a < d.len() && d[a] == g;
                let sel = is_loaded(iv, last.material) && mesh_fits(meshes, last.mesh, required);
                if a < dp.len() {
                    if sel {
                        assert(d == dp.push(last));
                    } else {
                        assert(d == dp);
                    }
                    assert(dp[a] == g);
                    assert(dp.contains(g));
                    assert(p.contains(g));
                    let b = choose|b: int| 0 <= b < p.len() && p[b] == g;
                    assert(groups[b] == g);
                } else {
                    if !sel {
                        assert(d == dp);
                    }
                    assert(d == dp.push(last));
                    assert(groups[groups.len() - 1] == g);
                }
            }
            if groups.contains(g) && is_loaded(iv, g.material) && mesh_fits(meshes, g.mesh, required) {
                let b = choose|b: int| 0 <= b < groups.len() && groups[b] == g;
                if b < p.len() {
                    assert(p[b] == g);
                    assert(p.contains(g));
                    assert(dp.contains(g));
                    let a = choose|a: int| 0 <= a < dp.len() && dp[a] == g;
                    if is_loaded(iv, last.material) && mesh_fits(meshes, last.mesh, required) {
                        assert(d == dp.push(last));
                    } else {
                        assert(d == dp);
                    }
                    assert(d[a] == g);
                } else {
                    assert(last == g);
                    assert(d == dp.push(last));
                    assert(d[d.len() - 1] == g);
                }
            }
        }
    }
}

/// The attributes of `required` that a mesh offering `available` lacks, in
/// order.
pub open spec fn lacking(required: Seq<VertexAttribute>, available: Seq<VertexAttribute>) -> Seq<
    VertexAttribute,
>
    decreases required.len(),
{
    if required.len() == 0 {
        Seq::empty()
    } else {
        let p = lacking(required.drop_last(), available);
        if available.contains(required.last()) {
            p
        } else {
            p.push(required.last())
        }
    }
}

/// The attributes that a pass requires and a mesh lacks: a mesh that lacks
/// any is skipped, and the others drawn.
pub fn missing_attributes(required: &Vec<VertexAttribute>, available: &Vec<VertexAttribute>) -> (r:
    Vec<VertexAttribute>)
    ensures
        r@ == lacking(required@, available@),
{
    let mut out: Vec<VertexAttribute> = Vec::new();
    let mut i: usize = 0;
    while i < required.len()
        invariant
            0 <= i <= required@.len(),
            out@ == lacking(required@.take(i as int), available@),
        decreases required@.len() - i,
    {
        proof {
            assert(required@.take(i + 1).drop_last() =~= required@.take(i as int));
            assert(required@.take(i + 1).last() == required@[i as int]);
        }
        let a = required[i];
        let mut found = false;
        let mut k: usize = 0;
        while k < available.len()
            invariant
                0 <= k <= available@.len(),
                found == exists|c: int| 0 <= c < k && available@[c] == a,
            decreases available@.len() - k,
        {
            if available[k] == a {
                found = true;
            }
            k = k + 1;
        }
        if !found {
            out.push(a);
        }
        i = i + 1;
    }
    proof {
        assert(required@.take(i as int) =~= required@);
    }
    out
}

/// Describes an opaque terrain pass before it is built.
#[derive(Clone, Copy, Debug, PartialEq, Eq, Structural)]
pub struct DrawTerrainDesc {
    pub skinning: bool,
}

impl DrawTerrainDesc {
    /// The pass in its default configuration: no skinning.
    pub fn new() -> (r: Self)
        ensures
            !r.skinning,
    {
        DrawTerrainDesc { skinning: false }
    }

    /// The same pass, drawing skinned meshes too.
    pub fn with_skinning(self) -> (r: Self)
        ensures
            r.skinning,
    {
        DrawTerrainDesc { skinning: true }
    }

    /// The pipeline settings of this pass.
    pub fn settings(&self) -> (r: PipelineSettings)
        ensures
            r == pipeline_settings_spec(false),
    {
        pipeline_settings(false)
    }

    /// The draw group, with nothing prepared yet, for meshes laid out as
    /// `vertex_format`.
    pub fn build(self, vertex_format: Vec<VertexAttribute>) -> (r: DrawTerrain)
        ensures
            r.wf(),
            r.state() == DrawState::Built,
            r.groups() == Seq::<(MaterialId, MeshGroups<InstanceRecord>)>::empty(),
            forall|i: int| !r.models().written(i),
            r.vertex_format() == vertex_format@,
    {
        DrawTerrain {
            batches: TwoLevelBatch::new(),
            models: FrameBuffers::new(),
            vertex_format,
            state: DrawState::Built,
        }
    }
}

/// An opaque draw group: entities are grouped by material, then mesh, in no
/// particular order.
pub struct DrawTerrain {
    batches: TwoLevelBatch<InstanceRecord>,
    models: FrameBuffers<InstanceRecord>,
    vertex_format: Vec<VertexAttribute>,
    state: DrawState,
}

impl DrawTerrain {
    pub closed spec fn groups(&self) -> MaterialGroups<InstanceRecord> {
        self.batches@
    }

    pub closed spec fn models(&self) -> FrameBuffers<InstanceRecord> {
        self.models
    }

    pub closed spec fn state(&self) -> DrawState {
        self.state
    }

    pub closed spec fn vertex_format(&self) -> Seq<VertexAttribute> {
        self.vertex_format@
    }

    pub open spec fn wf(&self) -> bool {
        &&& keys_unique(self.groups())
        &&& flat(self.groups()).len() <= u32::MAX
        &&& self.models().wf()
    }

    proof fn lemma_wf(&self)
        requires
            self.wf(),
        ensures
            self.batches.wf(),
    {
    }

    /// The binding at which the instance buffer goes: after the vertex
    /// attributes.
    pub fn models_location(&self) -> (r: u32)
        requires
            self.vertex_format().len() <= u32::MAX,
        ensures
            r == self.vertex_format().len(),
    {
        self.vertex_format.len() as u32
    }

    /// Prepares frame slot `index`: the visible static entities whose mesh is
    /// resident are grouped under their interned material and mesh, empty
    /// groups are pruned, and the stream is written to the slot, whose room
    /// grows to hold it. With nothing to draw, nothing is written and the
    /// pass is skipped.
    pub fn prepare(
        &mut self,
        index: usize,
        visible: &Vec<EntityData>,
        assets: &AssetState,
        materials: &mut MaterialInterner,
    ) -> (r: PrepareResult)
        requires
            old(self).wf(),
            old(self).state() != DrawState::Disposed,
            old(materials).wf(),
            index < usize::MAX,
            visible@.len() <= u32::MAX,
            old(materials)@.handles.len() + visible@.len() < u32::MAX,
        ensures
            final(self).wf(),
            final(materials).wf(),
            final(self).state() == DrawState::Prepared,
            final(self).vertex_format() == old(self).vertex_format(),
            r == (if flat(final(self).groups()).len() == 0 {
                PrepareResult::Skip
            } else {
                PrepareResult::DrawRecord
            }),
            ({
                let g = gather(
                    old(materials)@,
                    visible@,
                    assets.meshes@,
                    assets.ready_materials@,
                    false,
                    0,
                );
                &&& final(self).groups() == pruned(insert_all(cleared(old(self).groups()), g.entries))
                &&& final(materials)@ == g.interner
            }),
            all_nonempty(final(self).groups()),
            pruned(final(self).groups()) == final(self).groups(),
            flat(final(self).groups()).len() > 0 ==> final(self).models().written(index as int)
                && final(self).models().contents(index as int) == flat(final(self).groups()),
            flat(final(self).groups()).len() > 0 ==> final(self).models().capacity(index as int)
                == (if flat(final(self).groups()).len() > old(self).models().capacity(index as int) {
                flat(final(self).groups()).len()
            } else {
                old(self).models().capacity(index as int)
            }),
            flat(final(self).groups()).len() == 0 ==> final(self).models() == old(self).models(),
            forall|j: int|
                j != index ==> final(self).models().written(j) == old(self).models().written(j)
                    && final(self).models().contents(j) == old(self).models().contents(j),
    {
        proof {
            self.lemma_wf();
            lemma_gather_interns(old(materials)@, visible@, assets.meshes@, assets.ready_materials@, false, 0);
        }
        self.batches.clear_inner();
        gather_static(&mut self.batches, visible, assets, materials);
        let ghost filled = self.batches@;
        self.batches.prune();
        proof {
            lemma_pruned(filled);
            lemma_prune_twice(filled);
        }
        let data = self.batches.data();
        let n = data.len();
        self.models.write(index, n, &data);
        self.state = DrawState::Prepared;
        if n == 0 {
            PrepareResult::Skip
        } else {
            PrepareResult::DrawRecord
        }
    }

    /// The draw calls for frame slot `index`, in group order: none when the
    /// slot was never written; otherwise one per group whose material is
    /// ready and whose mesh is still resident with every attribute of the
    /// vertex format. A mesh that lacks one is left out; the others are drawn.
    pub fn draw(&mut self, index: usize, meshes: &Vec<ResidentMesh>, materials: &MaterialInterner) -> (r:
        Vec<GroupRange>)
        requires
            old(self).wf(),
            old(self).state() != DrawState::Disposed,
        ensures
            final(self).wf(),
            final(self).state() == DrawState::Drawn,
            final(self).groups() == old(self).groups(),
            final(self).models() == old(self).models(),
            final(self).vertex_format() == old(self).vertex_format(),
            r@ == (if old(self).models().written(index as int) {
                drawable(ranges_of(old(self).groups()), materials@, meshes@, old(self).vertex_format())
            } else {
                Seq::empty()
            }),
    {
        proof {
            self.lemma_wf();
        }
        self.state = DrawState::Drawn;
        if self.models.bind(index) {
            let groups = self.batches.iter();
            draw_calls(&groups, materials, meshes, &self.vertex_format)
        } else {
            Vec::new()
        }
    }

    /// Each group with its range of the instance stream, in stream order.
    pub fn group_ranges(&self) -> (r: Vec<GroupRange>)
        requires
            self.wf(),
        ensures
            r@ == ranges_of(self.groups()),
    {
        proof {
            self.lemma_wf();
        }
        self.batches.iter()
    }

    /// The number of instances batched.
    pub fn instance_count(&self) -> (r: usize)
        requires
            self.wf(),
        ensures
            r == flat(self.groups()).len(),
    {
        proof {
            self.lemma_wf();
        }
        self.batches.count()
    }

    /// Where the group is in its life.
    pub fn current_state(&self) -> (r: DrawState)
        ensures
            r == self.state(),
    {
        self.state
    }

    /// Releases the group: it is inert afterwards.
    pub fn dispose(&mut self)
        requires
            old(self).state() != DrawState::Disposed,
        ensures
            final(self).state() == DrawState::Disposed,
            final(self).groups() == old(self).groups(),
            final(self).models() == old(self).models(),
    {
        self.state = DrawState::Disposed;
    }
}

/// Describes a transparent terrain pass before it is built.
#[derive(Clone, Copy, Debug, PartialEq, Eq, Structural)]
pub struct DrawTerrainTransparentDesc {
    pub skinning: bool,
}

impl DrawTerrainTransparentDesc {
    /// The pass in its default configuration: no skinning.
    pub fn new() -> (r: Self)
        ensures
            !r.skinning,
    {
        DrawTerrainTransparentDesc { skinning: false }
    }

    /// The same pass, drawing skinned meshes too.
    pub fn with_skinning(self) -> (r: Self)
        ensures
            r.skinning,
    {
        DrawTerrainTransparentDesc { skinning: true }
    }

    /// The pipeline settings of this pass.
    pub fn settings(&self) -> (r: PipelineSettings)
        ensures
            r == pipeline_settings_spec(true),
    {
        pipeline_settings(true)
    }

    /// The draw group, with nothing prepared yet, for meshes laid out as
    /// `vertex_format` (and `skinned_format` for skinned meshes).
    pub fn build(
        self,
        vertex_format: Vec<VertexAttribute>,
        skinned_format: Vec<VertexAttribute>,
    ) -> (r: DrawTerrainTransparent)
        ensures
            r.wf(),
            r.state() == DrawState::Built,
            r.skinning_enabled() == self.skinning,
            r.static_groups() == Seq::<GroupRange>::empty(),
            r.skinned_groups() == Seq::<GroupRange>::empty(),
            forall|i: int| !r.models().written(i),
            forall|i: int| !r.skinned_models().written(i),
            r.vertex_format() == vertex_format@,
            r.skinned_format() == skinned_format@,
    {
        DrawTerrainTransparent {
            static_batches: OrderedTwoLevelBatch::new(),
            skinned_batches: OrderedTwoLevelBatch::new(),
            models: FrameBuffers::new(),
            skinned_models: FrameBuffers::new(),
            skinning: SkinningAggregator::new(),
            change: ChangeDetection::new(),
            skinning_enabled: self.skinning,
            vertex_format,
            skinned_format,
            state: DrawState::Built,
        }
    }
}

/// A transparent draw group: entities arrive sorted back to front, and the
/// batches keep that order exactly. Static and skinned entities are batched
/// apart.
pub struct DrawTerrainTransparent {
    static_batches: OrderedTwoLevelBatch<InstanceRecord>,
    skinned_batches: OrderedTwoLevelBatch<InstanceRecord>,
    models: FrameBuffers<InstanceRecord>,
    skinned_models: FrameBuffers<InstanceRecord>,
    skinning: SkinningAggregator,
    change: ChangeDetection,
    skinning_enabled: bool,
    vertex_format: Vec<VertexAttribute>,
    skinned_format: Vec<VertexAttribute>,
    state: DrawState,
}

impl DrawTerrainTransparent {
    pub closed spec fn static_groups(&self) -> Seq<GroupRange> {
        self.static_batches.groups_seq()
    }

    pub closed spec fn static_data(&self) -> Seq<InstanceRecord> {
        self.static_batches.data_seq()
    }

    pub closed spec fn old_static_groups(&self) -> Seq<GroupRange> {
        self.static_batches.old_groups_seq()
    }

    pub closed spec fn skinned_groups(&self) -> Seq<GroupRange> {
        self.skinned_batches.groups_seq()
    }

    pub closed spec fn skinned_data(&self) -> Seq<InstanceRecord> {
        self.skinned_batches.data_seq()
    }

    pub closed spec fn old_skinned_groups(&self) -> Seq<GroupRange> {
        self.skinned_batches.old_groups_seq()
    }

    pub closed spec fn models(&self) -> FrameBuffers<InstanceRecord> {
        self.models
    }

    pub closed spec fn skinned_models(&self) -> FrameBuffers<InstanceRecord> {
        self.skinned_models
    }

    /// The per-frame buffers of packed joints.
    pub closed spec fn joint_buffers(&self) -> FrameBuffers<JointMatrix> {
        self.skinning.buffers_spec()
    }

    /// The joints packed for the frame last prepared.
    pub closed spec fn joints(&self) -> Seq<JointMatrix> {
        self.skinning.staged_seq()
    }

    pub closed spec fn change(&self) -> ChangeDetection {
        self.change
    }

    pub closed spec fn skinning_enabled(&self) -> bool {
        self.skinning_enabled
    }

    pub closed spec fn state(&self) -> DrawState {
        self.state
    }

    pub closed spec fn vertex_format(&self) -> Seq<VertexAttribute> {
        self.vertex_format@
    }

    pub closed spec fn skinned_format(&self) -> Seq<VertexAttribute> {
        self.skinned_format@
    }

    pub closed spec fn wf(&self) -> bool {
        &&& self.static_batches.wf()
        &&& self.skinned_batches.wf()
        &&& self.models.wf()
        &&& self.skinned_models.wf()
        &&& self.skinning.wf()
    }

    /// The binding of the static instance buffer: after the vertex attributes.
    pub fn models_location(&self) -> (r: u32)
        requires
            self.vertex_format().len() <= u32::MAX,
        ensures
            r == self.vertex_format().len(),
    {
        self.vertex_format.len() as u32
    }

    /// The binding of the skinned instance buffer: after the skinned vertex
    /// attributes.
    pub fn skinned_models_location(&self) -> (r: u32)
        requires
            self.skinned_format().len() <= u32::MAX,
        ensures
            r == self.skinned_format().len(),
    {
        self.skinned_format.len() as u32
    }

    /// Prepares frame slot `index` from the visible entities, sorted back to
    /// front. Static entities, then (when skinning is on) skinned ones, whose
    /// mesh is resident are batched in that order under their interned
    /// material; skinned entities get their joints packed. The streams and
    /// the joints are written to the slot. With both streams empty the pass
    /// is skipped. Otherwise the commands recorded for the slot may be reused
    /// when no material was loaded, the groups are those of the previous
    /// frame, neither stream differs from the one written before it, and the
    /// slot is not stale.
    pub fn prepare(
        &mut self,
        index: usize,
        visible: &Vec<EntityData>,
        assets: &AssetState,
        materials: &mut MaterialInterner,
    ) -> (r: PrepareResult)
        requires
            old(self).wf(),
            old(self).state() != DrawState::Disposed,
            old(materials).wf(),
            index < usize::MAX,
            visible@.len() <= u32::MAX,
            old(materials)@.handles.len() + visible@.len() < u32::MAX,
            joint_count(visible@) <= u32::MAX,
        ensures
            final(self).wf(),
            final(materials).wf(),
            final(self).state() == DrawState::Prepared,
            final(self).skinning_enabled() == old(self).skinning_enabled(),
            final(self).vertex_format() == old(self).vertex_format(),
            final(self).skinned_format() == old(self).skinned_format(),
            final(self).old_static_groups() == old(self).static_groups(),
            final(self).old_skinned_groups() == old(self).skinned_groups(),
            ({
                let gs = gather(
                    old(materials)@,
                    visible@,
                    assets.meshes@,
                    assets.ready_materials@,
                    false,
                    0,
                );
                let gk = gather(
                    gs.interner,
                    visible@,
                    assets.meshes@,
                    assets.ready_materials@,
                    true,
                    0,
                );
                let on = old(self).skinning_enabled();
                let changed = gs.loaded_any || (on && gk.loaded_any) || final(self).static_groups()
                    != old(self).static_groups() || final(self).skinned_groups() != old(
                    self,
                ).skinned_groups() || stream_changed(
                    old(self).models().last_write(),
                    final(self).static_data(),
                ) || stream_changed(
                    old(self).skinned_models().last_write(),
                    final(self).skinned_data(),
                );
                &&& final(self).static_groups() == fill(gs.entries).0
                &&& final(self).static_data() == fill(gs.entries).1
                &&& final(self).static_data() == static_records(visible@, assets.meshes@)
                &&& on ==> final(self).skinned_groups() == fill(gk.entries).0
                &&& on ==> final(self).skinned_data() == fill(gk.entries).1
                &&& on ==> final(self).joints() == gk.joints
                &&& on ==> final(materials)@ == gk.interner
                &&& !on ==> final(self).skinned_groups() == Seq::<GroupRange>::empty()
                &&& !on ==> final(self).skinned_data() == Seq::<InstanceRecord>::empty()
                &&& !on ==> final(self).joints() == Seq::<JointMatrix>::empty()
                &&& !on ==> final(materials)@ == gs.interner
                &&& r == (if final(self).static_data().len() == 0
                    && final(self).skinned_data().len() == 0 {
                    PrepareResult::Skip
                } else if !changed && !old(self).change().is_stale(index as int) {
                    PrepareResult::DrawReuse
                } else {
                    PrepareResult::DrawRecord
                })
            }),
            final(self).static_data().len() > 0 ==> final(self).models().written(index as int)
                && final(self).models().contents(index as int) == final(self).static_data(),
            final(self).skinned_data().len() > 0 ==> final(self).skinned_models().written(
                index as int,
            ) && final(self).skinned_models().contents(index as int) == final(self).skinned_data(),
            final(self).joints().len() > 0 ==> final(self).joint_buffers().written(index as int)
                && final(self).joint_buffers().contents(index as int) == final(self).joints(),
            forall|j: int|
                j != index ==> {
                    &&& final(self).models().contents(j) == old(self).models().contents(j)
                    &&& final(self).skinned_models().contents(j) == old(
                        self,
                    ).skinned_models().contents(j)
                    &&& final(self).joint_buffers().contents(j) == old(
                        self,
                    ).joint_buffers().contents(j)
                },
            !final(self).change().is_stale(index as int),
            tiles(final(self).static_groups(), final(self).static_data().len() as int),
            tiles(final(self).skinned_groups(), final(self).skinned_data().len() as int),
    {
        let ghost iv0 = materials@;
        proof {
            let gs = gather(iv0, visible@, assets.meshes@, assets.ready_materials@, false, 0);
            lemma_fill_keeps_order(gs.entries);
            lemma_static_records(iv0, visible@, assets.meshes@, assets.ready_materials@);
        }
        self.static_batches.swap_clear();
        self.skinned_batches.swap_clear();
        self.skinning.clear();
        proof {
            lemma_gather_interns(iv0, visible@, assets.meshes@, assets.ready_materials@, false, 0);
            lemma_gather_interns(
                gather(iv0, visible@, assets.meshes@, assets.ready_materials@, false, 0).interner,
                visible@,
                assets.meshes@,
                assets.ready_materials@,
                true,
                0,
            );
        }
        let mut changed = gather_static_ordered(
            &mut self.static_batches,
            visible,
            assets,
            materials,
        );
        if self.skinning_enabled {
            let skinned_loaded = gather_skinned_ordered(
                &mut self.skinned_batches,
                &mut self.skinning,
                visible,
                assets,
                materials,
            );
            changed = changed || skinned_loaded;
            proof {
                assert(self.skinning.staged_seq() =~= gather(
                    gather(iv0, visible@, assets.meshes@, assets.ready_materials@, false, 0).interner,
                    visible@,
                    assets.meshes@,
                    assets.ready_materials@,
                    true,
                    0,
                ).joints);
            }
        }
        let n = self.static_batches.count();
        self.models.write(index, n, self.static_batches.data());
        let static_data_changed = n > 0 && self.models.changed();
        let k = self.skinned_batches.count();
        self.skinned_models.write(index, k, self.skinned_batches.data());
        let skinned_data_changed = k > 0 && self.skinned_models.changed();
        self.skinning.commit(index);
        changed = changed || self.static_batches.changed();
        changed = changed || self.skinned_batches.changed();
        changed = changed || static_data_changed || skinned_data_changed;
        self.state = DrawState::Prepared;
        let reuse = self.change.can_skip(index, changed);
        if n == 0 && k == 0 {
            PrepareResult::Skip
        } else if reuse {
            PrepareResult::DrawReuse
        } else {
            PrepareResult::DrawRecord
        }
    }

    /// The draw calls for frame slot `index`: the static calls, then the
    /// skinned calls, each in batch order, for the groups whose material is
    /// ready and whose mesh is still resident with every attribute of the
    /// pass's format (the skinned format for skinned calls); none for a
    /// buffer that was never written, and no skinned calls when skinning is
    /// off or no joints were committed to the slot.
    pub fn draw(&mut self, index: usize, meshes: &Vec<ResidentMesh>, materials: &MaterialInterner) -> (r: (
        Vec<GroupRange>,
        Vec<GroupRange>,
    ))
        requires
            old(self).wf(),
            old(self).state() != DrawState::Disposed,
        ensures
            final(self).wf(),
            final(self).state() == DrawState::Drawn,
            final(self).static_groups() == old(self).static_groups(),
            final(self).skinned_groups() == old(self).skinned_groups(),
            final(self).models() == old(self).models(),
            final(self).skinned_models() == old(self).skinned_models(),
            r.0@ == (if old(self).models().written(index as int) {
                drawable(old(self).static_groups(), materials@, meshes@, old(self).vertex_format())
            } else {
                Seq::empty()
            }),
            r.1@ == (if old(self).skinning_enabled() && old(self).skinned_models().written(
                index as int,
            ) && old(self).joint_buffers().written(index as int) {
                drawable(old(self).skinned_groups(), materials@, meshes@, old(self).skinned_format())
            } else {
                Seq::empty()
            }),
    {
        self.state = DrawState::Drawn;
        let static_calls = if self.models.bind(index) {
            draw_calls(self.static_batches.iter(), materials, meshes, &self.vertex_format)
        } else {
            Vec::new()
        };
        let skinned_calls = if self.skinning_enabled && self.skinned_models.bind(index)
            && self.skinning.bind(index) {
            draw_calls(self.skinned_batches.iter(), materials, meshes, &self.skinned_format)
        } else {
            Vec::new()
        };
        (static_calls, skinned_calls)
    }

    /// The static groups, each with its range of the static stream.
    pub fn static_group_ranges(&self) -> (r: &Vec<GroupRange>)
        ensures
            r@ == self.static_groups(),
    {
        self.static_batches.iter()
    }

    /// The static instance stream, back to front.
    pub fn static_instances(&self) -> (r: &Vec<InstanceRecord>)
        ensures
            r@ == self.static_data(),
    {
        self.static_batches.data()
    }

    /// The skinned groups, each with its range of the skinned stream.
    pub fn skinned_group_ranges(&self) -> (r: &Vec<GroupRange>)
        ensures
            r@ == self.skinned_groups(),
    {
        self.skinned_batches.iter()
    }

    /// The skinned instance stream, back to front.
    pub fn skinned_instances(&self) -> (r: &Vec<InstanceRecord>)
        ensures
            r@ == self.skinned_data(),
    {
        self.skinned_batches.data()
    }

    /// Where the group is in its life.
    pub fn current_state(&self) -> (r: DrawState)
        ensures
            r == self.state(),
    {
        self.state
    }

    /// Releases the group: it is inert afterwards.
    pub fn dispose(&mut self)
        requires
            old(self).state() != DrawState::Disposed,
        ensures
            final(self).state() == DrawState::Disposed,
            final(self).static_groups() == old(self).static_groups(),
            final(self).skinned_groups() == old(self).skinned_groups(),
    {
        self.state = DrawState::Disposed;
    }
}

} // verus!
