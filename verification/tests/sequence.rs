use directrf::sequence::{DoubleBuffer, PLLChange, Sequence, MAX_DIVN_CHANGES, MAX_SEQUENCE_LEN};

fn change(for_ticks: usize, start_tick: usize) -> PLLChange {
    PLLChange { for_ticks, start_tick, divn: 100, vcosel: false, divp: 3, tim_us: 50 }
}

#[test]
fn default_sequence_is_empty() {
    let seq = Sequence::default();
    assert!(seq.fracn().is_empty());
    assert!(seq.changes().is_empty());
    assert!(!seq.is_playable());
}

#[test]
fn push_keeps_order() {
    let mut seq = Sequence::default();
    assert_eq!(seq.push_fracn(&[5, 6]), Ok(()));
    assert_eq!(seq.push_fracn(&[7]), Ok(()));
    assert_eq!(seq.push_change(change(2, 0)), Ok(()));
    assert_eq!(seq.push_change(change(1, 2)), Ok(()));
    assert_eq!(seq.fracn(), &[5, 6, 7]);
    assert_eq!(seq.changes(), &[change(2, 0), change(1, 2)]);
    assert!(seq.is_playable());
}

#[test]
fn fracn_capacity() {
    let mut seq = Sequence::default();
    let full = vec![1u16; MAX_SEQUENCE_LEN - 1];
    assert_eq!(seq.push_fracn(&full), Ok(()));
    assert_eq!(seq.push_fracn(&[2, 3]), Err(()));
    assert_eq!(seq.fracn().len(), MAX_SEQUENCE_LEN - 1);
    assert_eq!(seq.push_fracn(&[2]), Ok(()));
    assert_eq!(seq.fracn().len(), MAX_SEQUENCE_LEN);
    assert_eq!(seq.fracn()[MAX_SEQUENCE_LEN - 1], 2);
    assert_eq!(seq.push_fracn(&[4]), Err(()));
    assert_eq!(seq.push_fracn(&[]), Ok(()));
}

#[test]
fn change_capacity() {
    let mut seq = Sequence::default();
    for i in 0..MAX_DIVN_CHANGES {
        assert_eq!(seq.push_change(change(1, i)), Ok(()));
    }
    assert_eq!(seq.push_change(change(1, 99)), Err(()));
    assert_eq!(seq.changes().len(), MAX_DIVN_CHANGES);
    assert_eq!(seq.changes()[MAX_DIVN_CHANGES - 1], change(1, MAX_DIVN_CHANGES - 1));
}

#[test]
fn clear_empties_both() {
    let mut seq = Sequence::default();
    seq.push_fracn(&[1, 2, 3]).unwrap();
    seq.push_change(change(3, 0)).unwrap();
    seq.clear();
    assert!(seq.fracn().is_empty());
    assert!(seq.changes().is_empty());
}

#[test]
fn playable_needs_every_change_to_fit() {
    let mut seq = Sequence::default();
    seq.push_fracn(&[1, 2, 3, 4]).unwrap();
    assert!(!seq.is_playable());
    seq.push_change(change(4, 0)).unwrap();
    assert!(seq.is_playable());
    seq.push_change(change(2, 2)).unwrap();
    assert!(seq.is_playable());
    seq.push_change(change(2, 3)).unwrap();
    assert!(!seq.is_playable());
}

#[test]
fn playable_rejects_empty_change() {
    let mut seq = Sequence::default();
    seq.push_fracn(&[1, 2]).unwrap();
    seq.push_change(change(0, 0)).unwrap();
    assert!(!seq.is_playable());
}

#[test]
fn playable_rejects_start_beyond_values() {
    let mut seq = Sequence::default();
    seq.push_fracn(&[1, 2]).unwrap();
    seq.push_change(change(1, 2)).unwrap();
    assert!(!seq.is_playable());
    let mut huge = Sequence::default();
    huge.push_fracn(&[1, 2]).unwrap();
    huge.push_change(change(usize::MAX, 1)).unwrap();
    assert!(!huge.is_playable());
}

#[test]
fn expensive_copy_copies() {
    let mut seq = Sequence::default();
    seq.push_fracn(&[9, 8, 7]).unwrap();
    seq.push_change(change(1, 0)).unwrap();
    seq.push_change(change(2, 1)).unwrap();
    let copy = seq.expensive_copy();
    seq.clear();
    assert_eq!(copy.fracn(), &[9, 8, 7]);
    assert_eq!(copy.changes(), &[change(1, 0), change(2, 1)]);
}

#[test]
fn double_buffer_swaps() {
    let mut buf = DoubleBuffer::new(10u32, 20u32);
    assert_eq!(buf.active_index(), 0);
    assert_eq!(*buf.active(), 10);
    assert_eq!(*buf.back(), 20);
    *buf.back_mut() = 21;
    assert_eq!(*buf.active(), 10);
    assert_eq!(*buf.back(), 21);
    buf.swap();
    assert_eq!(buf.active_index(), 1);
    assert_eq!(*buf.active(), 21);
    assert_eq!(*buf.back(), 10);
    *buf.back_mut() = 11;
    buf.swap();
    assert_eq!(buf.active_index(), 0);
    assert_eq!(*buf.active(), 11);
    assert_eq!(*buf.back(), 21);
}
