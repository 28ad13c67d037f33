use vstd::prelude::*;

verus! {

/// Dense identifier of an interned material.
#[derive(Clone, Copy, Debug, PartialEq, Eq, Structural, Hash)]
pub struct MaterialId(pub u32);

/// Identity of a mesh resource in the asset store.
pub type MeshId = u32;

/// Per-entity payload written to the instance buffer: the model transform and
/// tint as the shader reads them (packed words), and the offset of the entity's
/// joint set in the skinning buffer (zero for static entities).
#[derive(Clone, Copy, Debug, PartialEq, Eq)]
pub struct InstanceRecord {
    pub model: [u32; 16],
    pub tint: [u32; 4],
    pub joints_offset: u32,
}

/// Values that can be compared word for word.
pub trait SameAs: Sized {
    fn same(&self, other: &Self) -> (r: bool)
        ensures
            r == (*self == *other),
    ;
}

/// One joint transform of a skinned entity, as the shader reads it.
#[derive(Clone, Copy, Debug, PartialEq, Eq)]
pub struct JointMatrix {
    pub words: [u32; 16],
}

impl SameAs for JointMatrix {
    fn same(&self, other: &JointMatrix) -> (r: bool) {
        let mut i: usize = 0;
        while i < 16
            invariant
                0 <= i <= 16,
                forall|k: int| 0 <= k < i ==> self.words[k] == other.words[k],
            decreases 16 - i,
        {
            if self.words[i] != other.words[i] {
                return false;
            }
            i = i + 1;
        }
        proof {
            assert(self.words@ =~= other.words@);
            vstd::array::axiom_array_ext_equal(self.words, other.words);
        }
        true
    }
}

impl InstanceRecord {
    /// A record for a static (unskinned) entity.
    pub fn new(model: [u32; 16], tint: [u32; 4]) -> (r: InstanceRecord)
        ensures
            r.model == model,
            r.tint == tint,
            r.joints_offset == 0,
    {
        InstanceRecord { model, tint, joints_offset: 0 }
    }

    /// A record for a skinned entity whose joints start at `joints_offset`.
    pub fn skinned(model: [u32; 16], tint: [u32; 4], joints_offset: u32) -> (r: InstanceRecord)
        ensures
            r.model == model,
            r.tint == tint,
            r.joints_offset == joints_offset,
    {
        InstanceRecord { model, tint, joints_offset }
    }
}

impl SameAs for InstanceRecord {
    fn same(&self, other: &InstanceRecord) -> (r: bool) {
        if self.joints_offset != other.joints_offset {
            return false;
        }
        let mut i: usize = 0;
        while i < 16
            invariant
                0 <= i <= 16,
                forall|k: int| 0 <= k < i ==> self.model[k] == other.model[k],
            decreases 16 - i,
        {
            if self.model[i] != other.model[i] {
                return false;
            }
            i = i + 1;
        }
        let mut j: usize = 0;
        while j < 4
            invariant
                0 <= j <= 4,
                forall|k: int| 0 <= k < j ==> self.tint[k] == other.tint[k],
            decreases 4 - j,
        {
            if self.tint[j] != other.tint[j] {
                return false;
            }
            j = j + 1;
        }
        proof {
            assert(self.model@ =~= other.model@);
            assert(self.tint@ =~= other.tint@);
            vstd::array::axiom_array_ext_equal(self.model, other.model);
            vstd::array::axiom_array_ext_equal(self.tint, other.tint);
        }
        true
    }
}

/// Whether `x` is among `v`.
pub fn contains_u32(v: &Vec<u32>, x: u32) -> (r: bool)
    ensures
        r == v@.contains(x),
{
    let mut k: usize = 0;
    while k < v.len()
        invariant
            0 <= k <= v@.len(),
            forall|c: int| 0 <= c < k ==> v@[c] != x,
        decreases v@.len() - k,
    {
        if v[k] == x {
            return true;
        }
        k = k + 1;
    }
    false
}

/// Whether two record sequences are equal element by element.
pub fn same_records<T: SameAs>(a: &Vec<T>, b: &Vec<T>) -> (r: bool)
    ensures
        r == (a@ == b@),
{
    if a.len() != b.len() {
        return false;
    }
    let mut i: usize = 0;
    while i < a.len()
        invariant
            0 <= i <= a.len(),
            a.len() == b.len(),
            forall|k: int| 0 <= k < i ==> a@[k] == b@[k],
        decreases a.len() - i,
    {
        if !a[i].same(&b[i]) {
            return false;
        }
        i = i + 1;
    }
    assert(a@ =~= b@);
    true
}

/// The instances of one (material, mesh) group: the half-open range
/// `start..end` of the flattened instance stream.
#[derive(Clone, Copy, Debug, PartialEq, Eq, Structural)]
pub struct GroupRange {
    pub material: MaterialId,
    pub mesh: MeshId,
    pub start: u32,
    pub end: u32,
}

} // verus!
