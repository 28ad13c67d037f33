use vstd::prelude::*;

use crate::ids::{contains_u32, InstanceRecord, JointMatrix, MaterialId, MeshId};
use crate::material::{interned, InternerView, MaterialInterner};
use crate::ordered::{fill, payloads, OrderedTwoLevelBatch};
use crate::skinning::SkinningAggregator;
use crate::unordered::{
    cleared, flat, has_key, has_material, holds_keyed, insert_all, keys_unique, lemma_frame_grouping,
    lemma_inserted, pruned, MaterialGroups, TwoLevelBatch,
};

verus! {

/// A visible entity as the scene store hands it over: its material handle,
/// its mesh, its packed instance record, and its joint set when skinned.
pub struct EntityData {
    pub material: u32,
    pub mesh: MeshId,
    pub record: InstanceRecord,
    pub joints: Option<Vec<JointMatrix>>,
}

/// What the asset store reports this frame: the meshes that are resident and
/// the materials whose textures are resident.
pub struct AssetState {
    pub meshes: Vec<MeshId>,
    pub ready_materials: Vec<u32>,
}

/// What gathering the visible entities of one kind leaves: the interner, the
/// batch entries in order, the joints packed, and whether a material was
/// loaded on the way.
pub struct Gathered {
    pub interner: InternerView,
    pub entries: Seq<(MaterialId, MeshId, Seq<InstanceRecord>)>,
    pub joints: Seq<JointMatrix>,
    pub loaded_any: bool,
}

/// Whether the pass of kind `skinned` draws entity `e`: it is of that kind
/// and its mesh is resident.
pub open spec fn selected(e: EntityData, skinned: bool, meshes: Seq<MeshId>) -> bool {
    e.joints.is_some() == skinned && meshes.contains(e.mesh)
}

/// Gathers, in order, the entities of kind `skinned` whose mesh is resident:
/// each material is interned, and a skinned entity's joints are packed after
/// `base` joints, its record pointing at them.
pub open spec fn gather(
    iv: InternerView,
    es: Seq<EntityData>,
    meshes: Seq<MeshId>,
    ready: Seq<u32>,
    skinned: bool,
    base: nat,
) -> Gathered
    decreases es.len(),
{
    if es.len() == 0 {
        Gathered { interner: iv, entries: Seq::empty(), joints: Seq::empty(), loaded_any: false }
    } else {
        let g = gather(iv, es.drop_last(), meshes, ready, skinned, base);
        let e = es.last();
        if selected(e, skinned, meshes) {
            let (iv2, id, just) = interned(g.interner, e.material, ready.contains(e.material));
            let record = if skinned {
                InstanceRecord { joints_offset: (base + g.joints.len()) as u32, ..e.record }
            } else {
                e.record
            };
            let joints = if skinned {
                g.joints + e.joints.unwrap()@
            } else {
                g.joints
            };
            Gathered {
                interner: iv2,
                entries: g.entries.push((id, e.mesh, seq![record])),
                joints,
                loaded_any: g.loaded_any || just,
            }
        } else {
            g
        }
    }
}

/// The number of joints of the skinned entities among `es`.
pub open spec fn joint_count(es: Seq<EntityData>) -> nat
    decreases es.len(),
{
    if es.len() == 0 {
        0
    } else {
        joint_count(es.drop_last()) + match es.last().joints {
            Some(j) => j@.len(),
            None => 0,
        }
    }
}


/// The number of entities among `es` that the pass of kind `skinned` draws.
pub open spec fn selected_count(es: Seq<EntityData>, skinned: bool, meshes: Seq<MeshId>) -> nat
    decreases es.len(),
{
    if es.len() == 0 {
        0
    } else {
        selected_count(es.drop_last(), skinned, meshes) + if selected(es.last(), skinned, meshes) {
            1nat
        } else {
            0nat
        }
    }
}

/// Gathering yields one single-record entry per drawn entity.
pub proof fn lemma_gather_entries(
    iv: InternerView,
    es: Seq<EntityData>,
    meshes: Seq<MeshId>,
    ready: Seq<u32>,
    skinned: bool,
    base: nat,
)
    ensures
        gather(iv, es, meshes, ready, skinned, base).entries.len() == selected_count(
            es,
            skinned,
            meshes,
        ),
        payloads(gather(iv, es, meshes, ready, skinned, base).entries).len() == selected_count(
            es,
            skinned,
            meshes,
        ),
        forall|i: int|
            0 <= i < gather(iv, es, meshes, ready, skinned, base).entries.len() ==> (
            #[trigger] gather(iv, es, meshes, ready, skinned, base).entries[i]).2.len() == 1,
    decreases es.len(),
{
    if es.len() > 0 {
        lemma_gather_entries(iv, es.drop_last(), meshes, ready, skinned, base);
        let g = gather(iv, es, meshes, ready, skinned, base);
        let gp = gather(iv, es.drop_last(), meshes, ready, skinned, base);
        if selected(es.last(), skinned, meshes) {
            assert(g.entries.drop_last() =~= gp.entries);
            assert forall|i: int| 0 <= i < g.entries.len() implies (#[trigger] g.entries[i]).2.len()
                == 1 by {
                if i < gp.entries.len() {
                    assert(g.entries[i] == gp.entries[i]);
                }
            }
        }
    }
}

/// The batch that preparing a frame of static entities leaves (emptied,
/// refilled, pruned) has one group per material that a drawn entity uses,
/// and within it one group per mesh that a drawn entity uses with it, which
/// holds the records of exactly the entities with that key, in order; it
/// holds one instance per visible static entity whose mesh is resident, and
/// nothing of earlier frames.
pub proof fn lemma_static_grouping(
    v: MaterialGroups<InstanceRecord>,
    iv: InternerView,
    es: Seq<EntityData>,
    meshes: Seq<MeshId>,
    ready: Seq<u32>,
)
    requires
        keys_unique(v),
    ensures
        ({
            let g = gather(iv, es, meshes, ready, false, 0);
            let r = pruned(insert_all(cleared(v), g.entries));
            &&& keys_unique(r)
            &&& flat(r).len() == selected_count(es, false, meshes)
            &&& forall|m: MaterialId|
                has_material(r, m) <==> exists|i: int|
                    0 <= i < g.entries.len() && (#[trigger] g.entries[i]).0 == m
            &&& forall|m: MaterialId, k: MeshId|
                has_key(r, m, k) <==> exists|i: int|
                    0 <= i < g.entries.len() && (#[trigger] g.entries[i]).0 == m
                        && g.entries[i].1 == k
            &&& holds_keyed(r, g.entries)
        }),
{
    let g = gather(iv, es, meshes, ready, false, 0);
    lemma_gather_entries(iv, es, meshes, ready, false, 0);
    lemma_frame_grouping(v, g.entries);
}


/// The records of the visible static entities whose mesh is resident, in
/// order.
pub open spec fn static_records(es: Seq<EntityData>, meshes: Seq<MeshId>) -> Seq<InstanceRecord>
    decreases es.len(),
{
    if es.len() == 0 {
        Seq::empty()
    } else {
        static_records(es.drop_last(), meshes) + if selected(es.last(), false, meshes) {
            seq![es.last().record]
        } else {
            Seq::empty()
        }
    }
}

/// Gathering the static entities hands over exactly their records, in order.
pub proof fn lemma_static_records(
    iv: InternerView,
    es: Seq<EntityData>,
    meshes: Seq<MeshId>,
    ready: Seq<u32>,
)
    ensures
        payloads(gather(iv, es, meshes, ready, false, 0).entries) == static_records(es, meshes),
    decreases es.len(),
{
    if es.len() > 0 {
        lemma_static_records(iv, es.drop_last(), meshes, ready);
        let g = gather(iv, es, meshes, ready, false, 0);
        let gp = gather(iv, es.drop_last(), meshes, ready, false, 0);
        if selected(es.last(), false, meshes) {
            assert(g.entries.drop_last() =~= gp.entries);
        } else {
            assert(static_records(es, meshes) =~= static_records(es.drop_last(), meshes));
        }
    }
}

/// Gathering interns at most one new material per drawn entity, and no
/// entity is drawn by both kinds of pass.
pub proof fn lemma_gather_interns(
    iv: InternerView,
    es: Seq<EntityData>,
    meshes: Seq<MeshId>,
    ready: Seq<u32>,
    skinned: bool,
    base: nat,
)
    ensures
        gather(iv, es, meshes, ready, skinned, base).interner.handles.len() <= iv.handles.len()
            + selected_count(es, skinned, meshes),
        selected_count(es, false, meshes) + selected_count(es, true, meshes) <= es.len(),
    decreases es.len(),
{
    if es.len() > 0 {
        lemma_gather_interns(iv, es.drop_last(), meshes, ready, skinned, base);
    }
}

proof fn lemma_selected_prefix(es: Seq<EntityData>, i: int, skinned: bool, meshes: Seq<MeshId>)
    requires
        0 <= i <= es.len(),
    ensures
        selected_count(es.take(i), skinned, meshes) <= selected_count(es, skinned, meshes),
    decreases es.len(),
{
    if i == es.len() {
        assert(es.take(i) =~= es);
    } else {
        assert(es.take(i) =~= es.drop_last().take(i));
        lemma_selected_prefix(es.drop_last(), i, skinned, meshes);
    }
}

/// Gathering adds at most one material per entity, one entry per entity,
/// and only the joints of the skinned entities.
pub proof fn lemma_gather_bounds(
    iv: InternerView,
    es: Seq<EntityData>,
    meshes: Seq<MeshId>,
    ready: Seq<u32>,
    skinned: bool,
    base: nat,
)
    ensures
        gather(iv, es, meshes, ready, skinned, base).interner.handles.len() <= iv.handles.len()
            + es.len(),
        gather(iv, es, meshes, ready, skinned, base).entries.len() <= es.len(),
        skinned ==> gather(iv, es, meshes, ready, skinned, base).joints.len() <= joint_count(es),
        !skinned ==> gather(iv, es, meshes, ready, skinned, base).joints.len() == 0,
    decreases es.len(),
{
    if es.len() > 0 {
        lemma_gather_bounds(iv, es.drop_last(), meshes, ready, skinned, base);
    }
}

/// Gathers the static entities of `visible` into an unordered batch.
pub fn gather_static(
    batch: &mut TwoLevelBatch<InstanceRecord>,
    visible: &Vec<EntityData>,
    assets: &AssetState,
    materials: &mut MaterialInterner,
) -> (r: bool)
    requires
        old(batch).wf(),
        old(materials).wf(),
        flat(old(batch)@).len() + visible@.len() <= u32::MAX,
        old(materials)@.handles.len() + selected_count(visible@, false, assets.meshes@) < u32::MAX,
    ensures
        final(batch).wf(),
        final(materials).wf(),
        ({
            let g = gather(
                old(materials)@,
                visible@,
                assets.meshes@,
                assets.ready_materials@,
                false,
                0,
            );
            &&& final(batch)@ == insert_all(old(batch)@, g.entries)
            &&& final(materials)@ == g.interner
            &&& r == g.loaded_any
        }),
{
    let ghost b0 = batch@;
    let ghost iv0 = materials@;
    let mut loaded_any = false;
    let mut i: usize = 0;
    while i < visible.len()
        invariant
            0 <= i <= visible@.len(),
            batch.wf(),
            materials.wf(),
            flat(b0).len() + visible@.len() <= u32::MAX,
            iv0.handles.len() + selected_count(visible@, false, assets.meshes@) < u32::MAX,
            flat(batch@).len() <= flat(b0).len() + i,
            ({
                let g = gather(
                    iv0,
                    visible@.take(i as int),
                    assets.meshes@,
                    assets.ready_materials@,
                    false,
                    0,
                );
                &&& batch@ == insert_all(b0, g.entries)
                &&& materials@ == g.interner
                &&& loaded_any == g.loaded_any
            }),
        decreases visible@.len() - i,
    {
        let ghost es = visible@.take(i + 1);
        proof {
            assert(es.drop_last() =~= visible@.take(i as int));
            assert(es.last() == visible@[i as int]);
            lemma_selected_prefix(visible@, i + 1, false, assets.meshes@);
            assert(visible@.take(i + 1).drop_last() =~= visible@.take(i as int));
            lemma_gather_interns(
                iv0,
                visible@.take(i as int),
                assets.meshes@,
                assets.ready_materials@,
                false,
                0,
            );
            lemma_gather_bounds(
                iv0,
                visible@.take(i as int),
                assets.meshes@,
                assets.ready_materials@,
                false,
                0,
            );
        }
        let ghost gp = gather(
            iv0,
            visible@.take(i as int),
            assets.meshes@,
            assets.ready_materials@,
            false,
            0,
        );
        let ghost g = gather(iv0, es, assets.meshes@, assets.ready_materials@, false, 0);
        let e = &visible[i];
        if e.joints.is_none() && contains_u32(&assets.meshes, e.mesh) {
            let ready = contains_u32(&assets.ready_materials, e.material);
            let (id, just) = materials.intern(e.material, ready);
            let mut data: Vec<InstanceRecord> = Vec::new();
            data.push(e.record);
            proof {
                assert(data@ =~= seq![e.record]);
                lemma_inserted(batch@, id, e.mesh, data@);
            }
            batch.insert(id, e.mesh, data);
            loaded_any = loaded_any || just;
            proof {
                assert(selected(*e, false, assets.meshes@));
                assert(g.entries == gp.entries.push((id, e.mesh, seq![e.record])));
                assert(g.entries.drop_last() =~= gp.entries);
            }
        } else {
            proof {
                assert(!selected(*e, false, assets.meshes@));
                assert(g == gp);
            }
        }
        i = i + 1;
    }
    proof {
        assert(visible@.take(i as int) =~= visible@);
    }
    loaded_any
}

proof fn lemma_joint_count_prefix(es: Seq<EntityData>, i: int)
    requires
        0 <= i <= es.len(),
    ensures
        joint_count(es.take(i)) <= joint_count(es),
    decreases es.len(),
{
    if i == es.len() {
        assert(es.take(i) =~= es);
    } else {
        assert(es.take(i) =~= es.drop_last().take(i));
        lemma_joint_count_prefix(es.drop_last(), i);
    }
}

/// Gathers the static entities of `visible` into an emptied ordered batch,
/// keeping their order.
pub fn gather_static_ordered(
    batch: &mut OrderedTwoLevelBatch<InstanceRecord>,
    visible: &Vec<EntityData>,
    assets: &AssetState,
    materials: &mut MaterialInterner,
) -> (r: bool)
    requires
        old(batch).wf(),
        old(batch).data_seq().len() == 0,
        old(batch).groups_seq().len() == 0,
        old(materials).wf(),
        visible@.len() <= u32::MAX,
        old(materials)@.handles.len() + selected_count(visible@, false, assets.meshes@) < u32::MAX,
    ensures
        final(batch).wf(),
        final(materials).wf(),
        final(batch).old_groups_seq() == old(batch).old_groups_seq(),
        ({
            let g = gather(
                old(materials)@,
                visible@,
                assets.meshes@,
                assets.ready_materials@,
                false,
                0,
            );
            &&& final(batch).groups_seq() == fill(g.entries).0
            &&& final(batch).data_seq() == fill(g.entries).1
            &&& final(materials)@ == g.interner
            &&& r == g.loaded_any
        }),
{
    let ghost iv0 = materials@;
    let mut loaded_any = false;
    let mut i: usize = 0;
    proof {
        assert(batch.groups_seq() =~= fill(Seq::<(MaterialId, MeshId, Seq<InstanceRecord>)>::empty()).0);
        assert(batch.data_seq() =~= fill(Seq::<(MaterialId, MeshId, Seq<InstanceRecord>)>::empty()).1);
    }
    while i < visible.len()
        invariant
            0 <= i <= visible@.len(),
            batch.wf(),
            materials.wf(),
            visible@.len() <= u32::MAX,
            iv0.handles.len() + selected_count(visible@, false, assets.meshes@) < u32::MAX,
            batch.data_seq().len() <= i,
            batch.old_groups_seq() == old(batch).old_groups_seq(),
            ({
                let g = gather(
                    iv0,
                    visible@.take(i as int),
                    assets.meshes@,
                    assets.ready_materials@,
                    false,
                    0,
                );
                &&& batch.groups_seq() == fill(g.entries).0
                &&& batch.data_seq() == fill(g.entries).1
                &&& materials@ == g.interner
                &&& loaded_any == g.loaded_any
            }),
        decreases visible@.len() - i,
    {
        let ghost es = visible@.take(i + 1);
        proof {
            assert(es.drop_last() =~= visible@.take(i as int));
            assert(es.last() == visible@[i as int]);
            lemma_selected_prefix(visible@, i + 1, false, assets.meshes@);
            assert(visible@.take(i + 1).drop_last() =~= visible@.take(i as int));
            lemma_gather_interns(
                iv0,
                visible@.take(i as int),
                assets.meshes@,
                assets.ready_materials@,
                false,
                0,
            );
            lemma_gather_bounds(
                iv0,
                visible@.take(i as int),
                assets.meshes@,
                assets.ready_materials@,
                false,
                0,
            );
        }
        let ghost gp = gather(
            iv0,
            visible@.take(i as int),
            assets.meshes@,
            assets.ready_materials@,
            false,
            0,
        );
        let ghost g = gather(iv0, es, assets.meshes@, assets.ready_materials@, false, 0);
        let e = &visible[i];
        if e.joints.is_none() && contains_u32(&assets.meshes, e.mesh) {
            let ready = contains_u32(&assets.ready_materials, e.material);
            let (id, just) = materials.intern(e.material, ready);
            let mut data: Vec<InstanceRecord> = Vec::new();
            data.push(e.record);
            proof {
                assert(data@ =~= seq![e.record]);
            }
            batch.insert(id, e.mesh, data);
            loaded_any = loaded_any || just;
            proof {
                assert(selected(*e, false, assets.meshes@));
                assert(g.entries == gp.entries.push((id, e.mesh, seq![e.record])));
                assert(g.entries.drop_last() =~= gp.entries);
                assert(g.entries.last() == (id, e.mesh, seq![e.record]));
            }
        } else {
            proof {
                assert(!selected(*e, false, assets.meshes@));
                assert(g == gp);
            }
        }
        i = i + 1;
    }
    proof {
        assert(visible@.take(i as int) =~= visible@);
    }
    loaded_any
}

/// Gathers the skinned entities of `visible` into an emptied ordered batch,
/// keeping their order, and packs their joints into `skinning`.
pub fn gather_skinned_ordered(
    batch: &mut OrderedTwoLevelBatch<InstanceRecord>,
    skinning: &mut SkinningAggregator,
    visible: &Vec<EntityData>,
    assets: &AssetState,
    materials: &mut MaterialInterner,
) -> (r: bool)
    requires
        old(batch).wf(),
        old(batch).data_seq().len() == 0,
        old(batch).groups_seq().len() == 0,
        old(skinning).wf(),
        old(materials).wf(),
        visible@.len() <= u32::MAX,
        old(materials)@.handles.len() + selected_count(visible@, true, assets.meshes@) < u32::MAX,
        old(skinning).staged_seq().len() + joint_count(visible@) <= u32::MAX,
    ensures
        final(batch).wf(),
        final(skinning).wf(),
        final(materials).wf(),
        final(batch).old_groups_seq() == old(batch).old_groups_seq(),
        final(skinning).buffers_spec() == old(skinning).buffers_spec(),
        ({
            let g = gather(
                old(materials)@,
                visible@,
                assets.meshes@,
                assets.ready_materials@,
                true,
                old(skinning).staged_seq().len(),
            );
            &&& final(batch).groups_seq() == fill(g.entries).0
            &&& final(batch).data_seq() == fill(g.entries).1
            &&& final(skinning).staged_seq() == old(skinning).staged_seq() + g.joints
            &&& final(materials)@ == g.interner
            &&& r == g.loaded_any
        }),
{
    let ghost iv0 = materials@;
    let ghost s0 = skinning.staged_seq();
    let ghost base = s0.len();
    let mut loaded_any = false;
    let mut i: usize = 0;
    proof {
        assert(batch.groups_seq() =~= fill(Seq::<(MaterialId, MeshId, Seq<InstanceRecord>)>::empty()).0);
        assert(batch.data_seq() =~= fill(Seq::<(MaterialId, MeshId, Seq<InstanceRecord>)>::empty()).1);
        assert(skinning.staged_seq() =~= s0 + Seq::<JointMatrix>::empty());
    }
    while i < visible.len()
        invariant
            0 <= i <= visible@.len(),
            batch.wf(),
            skinning.wf(),
            materials.wf(),
            visible@.len() <= u32::MAX,
            iv0.handles.len() + selected_count(visible@, true, assets.meshes@) < u32::MAX,
            base == s0.len(),
            base + joint_count(visible@) <= u32::MAX,
            batch.data_seq().len() <= i,
            batch.old_groups_seq() == old(batch).old_groups_seq(),
            skinning.buffers_spec() == old(skinning).buffers_spec(),
            ({
                let g = gather(
                    iv0,
                    visible@.take(i as int),
                    assets.meshes@,
                    assets.ready_materials@,
                    true,
                    base,
                );
                &&& batch.groups_seq() == fill(g.entries).0
                &&& batch.data_seq() == fill(g.entries).1
                &&& skinning.staged_seq() == s0 + g.joints
                &&& materials@ == g.interner
                &&& loaded_any == g.loaded_any
            }),
        decreases visible@.len() - i,
    {
        let ghost es = visible@.take(i + 1);
        proof {
            assert(es.drop_last() =~= visible@.take(i as int));
            assert(es.last() == visible@[i as int]);
            lemma_selected_prefix(visible@, i + 1, true, assets.meshes@);
            assert(visible@.take(i + 1).drop_last() =~= visible@.take(i as int));
            lemma_gather_interns(
                iv0,
                visible@.take(i as int),
                assets.meshes@,
                assets.ready_materials@,
                true,
                base,
            );
            lemma_gather_bounds(
                iv0,
                visible@.take(i as int),
                assets.meshes@,
                assets.ready_materials@,
                true,
                base,
            );
            lemma_joint_count_prefix(visible@, i + 1);
        }
        let ghost gp = gather(
            iv0,
            visible@.take(i as int),
            assets.meshes@,
            assets.ready_materials@,
            true,
            base,
        );
        let ghost g = gather(iv0, es, assets.meshes@, assets.ready_materials@, true, base);
        let e = &visible[i];
        match &e.joints {
            Some(joints) => {
                if contains_u32(&assets.meshes, e.mesh) {
                    let ready = contains_u32(&assets.ready_materials, e.material);
                    let (id, just) = materials.intern(e.material, ready);
                    let offset = skinning.insert(joints);
                    let record = InstanceRecord { joints_offset: offset, ..e.record };
                    let mut data: Vec<InstanceRecord> = Vec::new();
                    data.push(record);
                    proof {
                        assert(data@ =~= seq![record]);
                    }
                    batch.insert(id, e.mesh, data);
                    loaded_any = loaded_any || just;
                    proof {
                        assert(selected(*e, true, assets.meshes@));
                        assert(record == InstanceRecord {
                            joints_offset: (base + gp.joints.len()) as u32,
                            ..e.record
                        });
                        assert(g.entries == gp.entries.push((id, e.mesh, seq![record])));
                        assert(g.entries.drop_last() =~= gp.entries);
                        assert(g.entries.last() == (id, e.mesh, seq![record]));
                        assert(g.joints == gp.joints + joints@);
                        assert(skinning.staged_seq() =~= s0 + g.joints);
                    }
                } else {
                    proof {
                        assert(!selected(*e, true, assets.meshes@));
                        assert(g == gp);
                    }
                }
            },
            None => {
                proof {
                    assert(!selected(*e, true, assets.meshes@));
                    assert(g == gp);
                }
            },
        }
        i = i + 1;
    }
    proof {
        assert(visible@.take(i as int) =~= visible@);
    }
    loaded_any
}

} // verus!
