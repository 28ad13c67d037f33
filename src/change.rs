use vstd::prelude::*;

verus! {

/// Tracks, for each frame slot, whether the draw commands recorded for it are
/// stale. A change marks every slot stale; preparing a slot makes it current.
pub struct ChangeDetection {
    stale: Vec<bool>,
}

impl ChangeDetection {
    /// Whether slot `index` must be recorded again. A slot never prepared is
    /// stale.
    pub closed spec fn is_stale(&self, index: int) -> bool {
        index >= self.stale@.len() || self.stale@[index]
    }

    /// Every slot stale.
    pub fn new() -> (r: Self)
        ensures
            forall|i: int| 0 <= i ==> r.is_stale(i),
    {
        ChangeDetection { stale: Vec::new() }
    }

    /// Prepares slot `index` for a frame whose batches `changed` or not, and
    /// returns whether the commands recorded for that slot earlier can be
    /// reused.
    pub fn can_skip(&mut self, index: usize, changed: bool) -> (r: bool)
        requires
            index < usize::MAX,
        ensures
            r == (!changed && !old(self).is_stale(index as int)),
            !final(self).is_stale(index as int),
            forall|j: int|
                0 <= j && j != index ==> final(self).is_stale(j) == (changed || old(self).is_stale(
                    j,
                )),
    {
        let ghost s0 = self.stale@;
        while self.stale.len() <= index
            invariant
                self.stale@.len() > s0.len() ==> self.stale@.len() <= index + 1,
                self.stale@.len() >= s0.len(),
                forall|j: int| 0 <= j < s0.len() ==> self.stale@[j] == s0[j],
                forall|j: int| s0.len() <= j < self.stale@.len() ==> self.stale@[j],
            decreases index + 1 - self.stale@.len(),
        {
            self.stale.push(true);
        }
        if changed {
            let mut k: usize = 0;
            while k < self.stale.len()
                invariant
                    0 <= k <= self.stale@.len(),
                    self.stale@.len() > index,
                    self.stale@.len() >= s0.len(),
                    forall|j: int| 0 <= j < k ==> self.stale@[j],
                    forall|j: int| 0 <= j < s0.len() && k <= j ==> self.stale@[j] == s0[j],
                    forall|j: int| s0.len() <= j < self.stale@.len() ==> self.stale@[j],
                decreases self.stale@.len() - k,
            {
                self.stale.set(k, true);
                k = k + 1;
            }
        }
        let skip = !self.stale[index];
        self.stale.set(index, false);
        skip
    }
}

} // verus!
