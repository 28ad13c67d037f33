use amethyst_terrain::{ChangeDetection, FrameBuffers, InstanceRecord, JointMatrix, SkinningAggregator};

fn rec(tag: u32) -> InstanceRecord {
    let mut model = [0u32; 16];
    model[5] = tag;
    InstanceRecord::new(model, [0, 0, 0, 0])
}

#[test]
fn identical_writes_are_not_a_change() {
    let mut f: FrameBuffers<InstanceRecord> = FrameBuffers::new();
    let data = vec![rec(1), rec(2)];
    assert!(f.write(0, 2, &data));
    assert!(f.changed());
    assert!(f.write(1, 2, &data));
    assert!(!f.changed());
}

#[test]
fn one_altered_transform_is_a_change() {
    let mut f: FrameBuffers<InstanceRecord> = FrameBuffers::new();
    assert!(f.write(0, 2, &vec![rec(1), rec(2)]));
    assert!(f.write(1, 2, &vec![rec(1), rec(3)]));
    assert!(f.changed());
}

#[test]
fn slots_keep_their_contents_round_robin() {
    let mut f: FrameBuffers<InstanceRecord> = FrameBuffers::new();
    for frame in 0..3u32 {
        let slot = (frame % 3) as usize;
        assert!(f.write(slot, 1, &vec![rec(100 + frame)]));
    }
    assert!(f.write(0, 2, &vec![rec(7), rec(8)]));
    assert_eq!(f.contents_of(1), &vec![rec(101)]);
    assert_eq!(f.contents_of(2), &vec![rec(102)]);
    assert_eq!(f.contents_of(0), &vec![rec(7), rec(8)]);
}

#[test]
fn zero_length_write_does_nothing() {
    let mut f: FrameBuffers<InstanceRecord> = FrameBuffers::new();
    assert!(!f.write(0, 0, &vec![]));
    assert!(!f.bind(0));
    assert_eq!(f.capacity_of(0), 0);
}

#[test]
fn capacity_only_grows() {
    let mut f: FrameBuffers<InstanceRecord> = FrameBuffers::new();
    assert!(f.write(1, 4, &vec![rec(1)]));
    assert_eq!(f.capacity_of(1), 4);
    assert!(f.write(1, 2, &vec![rec(1), rec(2)]));
    assert_eq!(f.capacity_of(1), 4);
    assert!(f.write(1, 6, &vec![rec(3)]));
    assert_eq!(f.capacity_of(1), 6);
    assert!(f.bind(1));
    assert!(!f.bind(0));
}

#[test]
fn change_detection_reuses_only_current_slots() {
    let mut c = ChangeDetection::new();
    assert!(!c.can_skip(0, false));
    assert!(c.can_skip(0, false));
    assert!(!c.can_skip(1, false));
    assert!(c.can_skip(1, false));
    assert!(!c.can_skip(0, true));
    assert!(!c.can_skip(1, false));
    assert!(c.can_skip(0, false));
}

#[test]
fn skinning_offsets_follow_the_packed_joints() {
    let joint = |w: u32| JointMatrix { words: [w; 16] };
    let mut s = SkinningAggregator::new();
    assert_eq!(s.insert(&vec![joint(1), joint(2), joint(3)]), 0);
    assert_eq!(s.insert(&vec![joint(4), joint(5)]), 3);
    assert!(s.commit(1));
    assert!(s.bind(1));
    assert!(!s.bind(0));
    s.clear();
    assert!(!s.commit(0));
    assert!(!s.bind(0));
}
