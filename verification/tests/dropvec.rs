use smppgc::dropvec::DropVec;
use smppgc::util::IdCounter;

fn collect(v: &DropVec<u32>) -> Vec<u32> {
    let mut out = Vec::new();
    let mut it = v.iter();
    while let Some(x) = it.next() {
        out.push(*x);
    }
    out
}

#[test]
fn keeps_last_items_in_order() {
    let mut v: DropVec<u32> = DropVec::new(3);
    assert!(collect(&v).is_empty());
    v.push(1);
    v.push(2);
    assert_eq!(collect(&v), vec![1, 2]);
    v.push(3);
    v.push(4);
    assert_eq!(collect(&v), vec![2, 3, 4]);
    v.push(5);
    assert_eq!(collect(&v), vec![3, 4, 5]);
}

#[test]
fn capacity_zero_is_a_noop() {
    let mut v: DropVec<u32> = DropVec::new(0);
    v.push(1);
    v.extend(vec![2, 3]);
    assert!(collect(&v).is_empty());
}

#[test]
fn extend_pushes_in_order() {
    let mut v: DropVec<u32> = DropVec::new(2);
    v.extend(vec![1, 2, 3]);
    assert_eq!(collect(&v), vec![2, 3]);
}

#[test]
fn id_counter_skips_zero() {
    let mut c = IdCounter::new();
    assert_eq!(c.new_id(), 1);
    assert_eq!(c.new_id(), 2);
    for _ in 0..65_533 {
        c.new_id();
    }
    // The counter has wrapped past its whole range; 0 is skipped.
    let next = c.new_id();
    assert_eq!(next, 1);
}
