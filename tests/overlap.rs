use loderunner::geometry::WorldPos;
use loderunner::overlaps::{build_overlaps, is_overlapping, Collider, Overlaps};

fn at(id: u64, x: i64, y: i64) -> Collider {
    Collider { id, position: WorldPos { x, y }, overlaps: Overlaps::new() }
}

#[test]
fn default_record_is_active_and_narrow() {
    let o = Overlaps::new();
    assert!(o.is_active);
    assert_eq!(o.width, 18_000);
    assert_eq!(o.height, 20_000);
    assert!(o.entities.is_empty());
}

#[test]
fn overlap_uses_smaller_extent() {
    let a = at(1, 0, 0);
    let mut b = at(2, 15_000, 0);
    assert!(is_overlapping(&a, &b));
    b.overlaps.width = 10_000;
    assert!(!is_overlapping(&a, &b));
    // a neighbour one column away (20000) never overlaps
    let c = at(3, 20_000, 0);
    assert!(!is_overlapping(&a, &c));
}

#[test]
fn overlap_lists_are_mutual_and_rebuilt() {
    let mut cs = vec![at(1, 0, 0), at(2, 10_000, 5_000), at(3, 25_000, 0), at(4, 40_000, 0)];
    cs[0].overlaps.entities.push(99);
    build_overlaps(&mut cs);
    assert_eq!(cs[0].overlaps.entities, vec![2]);
    assert_eq!(cs[1].overlaps.entities, vec![1, 3]);
    assert_eq!(cs[2].overlaps.entities, vec![2, 4]);
    assert_eq!(cs[3].overlaps.entities, vec![3]);
    for a in &cs {
        for b in &cs {
            assert_eq!(a.overlaps.entities.contains(&b.id), b.overlaps.entities.contains(&a.id));
        }
    }
}

#[test]
fn inactive_records_never_overlap() {
    let mut cs = vec![at(1, 0, 0), at(2, 0, 0), at(3, 1_000, 0)];
    cs[1].overlaps.is_active = false;
    build_overlaps(&mut cs);
    assert_eq!(cs[0].overlaps.entities, vec![3]);
    assert!(cs[1].overlaps.entities.is_empty());
    assert_eq!(cs[2].overlaps.entities, vec![1]);
}
