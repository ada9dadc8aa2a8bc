use engine::math::clamp;
use engine::types::Id;

#[test]
fn test_id_hi_lo() {
    let hi = 1234;
    let lo = 4321;

    let id = Id::<u32>::new_split(hi, lo);

    assert_eq!(id.hi(), hi);
    assert_eq!(id.lo(), lo);
}

#[test]
fn id_split_packs_hi_above_lo() {
    let id = Id::<u8>::new_split(1, 2);
    assert_eq!(id.full(), 0x0001_0002);
    let top = Id::<u8>::new_split(0xFFFF, 0xFFFF);
    assert_eq!(top.full(), u32::MAX);
    assert_eq!(top.hi(), 0xFFFF);
    assert_eq!(top.lo(), 0xFFFF);
}

#[test]
fn id_next_increments() {
    let id = Id::<u8>::new(41);
    assert_eq!(id.next().full(), 42);
    assert!(id.next() != id);
    assert!(Id::<u8>::new(7) == Id::<u8>::new(7));
}

#[test]
fn clamp_raises_and_lowers() {
    assert_eq!(clamp(5i64, 0, 10), 5);
    assert_eq!(clamp(-3i64, 0, 10), 0);
    assert_eq!(clamp(12i64, 0, 10), 10);
    assert_eq!(clamp(0.25f64, 0.5, 3.0), 0.5);
}
