use vstd::prelude::*;

use crate::ids::{contains_u32, MaterialId};

verus! {

/// What the interner holds: for each id, the material handle it stands for,
/// whether its descriptors are ready to bind, and whether a load was already
/// tried since the last `maintain`.
pub struct InternerView {
    pub handles: Seq<u32>,
    pub loaded: Seq<bool>,
    pub tried: Seq<bool>,
}

pub open spec fn has_handle(handles: Seq<u32>, h: u32) -> bool {
    exists|i: int| 0 <= i < handles.len() && handles[i] == h
}

/// The id of handle `h`, or the next free id when it has none.
pub open spec fn handle_index(handles: Seq<u32>, h: u32) -> int {
    if has_handle(handles, h) {
        choose|i: int| 0 <= i < handles.len() && handles[i] == h
    } else {
        handles.len() as int
    }
}

/// The interner with an id for `h`: a new id is not loaded and not tried.
pub open spec fn with_handle(v: InternerView, h: u32) -> InternerView {
    if has_handle(v.handles, h) {
        v
    } else {
        InternerView {
            handles: v.handles.push(h),
            loaded: v.loaded.push(false),
            tried: v.tried.push(false),
        }
    }
}

/// Interning `h`, whose textures are resident when `ready`: the new state,
/// the id, and whether the material was loaded by this call. A material not
/// loaded is tried at most once between two `maintain`s.
pub open spec fn interned(v: InternerView, h: u32, ready: bool) -> (InternerView, MaterialId, bool) {
    let b = with_handle(v, h);
    let i = handle_index(v.handles, h);
    let id = MaterialId(i as u32);
    if b.loaded[i] || b.tried[i] {
        (b, id, false)
    } else {
        (InternerView { handles: b.handles, loaded: b.loaded.update(i, ready), tried: b.tried.update(i, true) }, id, ready)
    }
}

/// Whether material `id` is ready to bind.
pub open spec fn is_loaded(v: InternerView, id: MaterialId) -> bool {
    id.0 < v.loaded.len() && v.loaded[id.0 as int]
}

/// Deduplicates material handles into dense ids and tracks which of them are
/// ready to bind.
pub struct MaterialInterner {
    handles: Vec<u32>,
    loaded: Vec<bool>,
    tried: Vec<bool>,
}

impl View for MaterialInterner {
    type V = InternerView;

    closed spec fn view(&self) -> InternerView {
        InternerView { handles: self.handles@, loaded: self.loaded@, tried: self.tried@ }
    }
}

impl MaterialInterner {
    pub open spec fn wf(&self) -> bool {
        &&& self@.loaded.len() == self@.handles.len()
        &&& self@.tried.len() == self@.handles.len()
        &&& forall|a: int, b: int|
            0 <= a < b < self@.handles.len() ==> self@.handles[a] != self@.handles[b]
    }

    /// No material interned.
    pub fn new() -> (r: Self)
        ensures
            r.wf(),
            r@.handles == Seq::<u32>::empty(),
    {
        let r = MaterialInterner { handles: Vec::new(), loaded: Vec::new(), tried: Vec::new() };
        assert(r@.handles =~= Seq::<u32>::empty());
        r
    }

    /// Starts a frame: every material may be tried again, and the materials
    /// whose handle is in `removed` (their resource was unloaded or replaced)
    /// are no longer ready. Ids are kept.
    pub fn maintain(&mut self, removed: &Vec<u32>)
        requires
            old(self).wf(),
        ensures
            final(self).wf(),
            final(self)@.handles == old(self)@.handles,
            forall|i: int|
                0 <= i < old(self)@.handles.len() ==> !(#[trigger] final(self)@.tried[i]),
            forall|i: int|
                0 <= i < old(self)@.handles.len() ==> (#[trigger] final(self)@.loaded[i]) == (
                old(self)@.loaded[i] && !removed@.contains(old(self)@.handles[i])),
    {
        let mut loaded: Vec<bool> = Vec::new();
        let mut tried: Vec<bool> = Vec::new();
        let mut i: usize = 0;
        while i < self.handles.len()
            invariant
                0 <= i <= self.handles@.len(),
                self.wf(),
                loaded@.len() == i,
                tried@.len() == i,
                forall|a: int| 0 <= a < i ==> !tried@[a],
                forall|a: int|
                    0 <= a < i ==> loaded@[a] == (self@.loaded[a] && !removed@.contains(
                        self@.handles[a],
                    )),
            decreases self.handles@.len() - i,
        {
            let gone = contains_u32(removed, self.handles[i]);
            loaded.push(self.loaded[i] && !gone);
            tried.push(false);
            i = i + 1;
        }
        self.loaded = loaded;
        self.tried = tried;
    }

    /// The id of material `handle`, made on first sight, and whether this
    /// call loaded it. A material that is not loaded is loaded when `ready`
    /// (its textures are resident), at most one attempt between two
    /// `maintain`s.
    pub fn intern(&mut self, handle: u32, ready: bool) -> (r: (MaterialId, bool))
        requires
            old(self).wf(),
            old(self)@.handles.len() < u32::MAX,
        ensures
            final(self).wf(),
            (final(self)@, r.0, r.1) == interned(old(self)@, handle, ready),
    {
        let ghost v = self@;
        let mut i: usize = 0;
        while i < self.handles.len() && self.handles[i] != handle
            invariant
                0 <= i <= self.handles@.len(),
                self@ == v,
                forall|a: int| 0 <= a < i ==> v.handles[a] != handle,
            decreases v.handles.len() - i,
        {
            i = i + 1;
        }
        if i == self.handles.len() {
            self.handles.push(handle);
            self.loaded.push(false);
            self.tried.push(false);
            proof {
                assert(!has_handle(v.handles, handle));
                assert(self@ == with_handle(v, handle));
            }
        } else {
            proof {
                assert(v.handles[i as int] == handle);
                assert(has_handle(v.handles, handle));
                let c = choose|c: int| 0 <= c < v.handles.len() && v.handles[c] == handle;
                assert(c == i);
            }
        }
        let id = MaterialId(i as u32);
        if self.loaded[i] || self.tried[i] {
            (id, false)
        } else {
            self.loaded.set(i, ready);
            self.tried.set(i, true);
            (id, ready)
        }
    }

    /// Whether material `id` is ready to bind.
    pub fn loaded(&self, id: MaterialId) -> (r: bool)
        ensures
            r == is_loaded(self@, id),
    {
        (id.0 as usize) < self.loaded.len() && self.loaded[id.0 as usize]
    }
}

} // verus!
