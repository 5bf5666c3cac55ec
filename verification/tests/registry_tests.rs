use kernel_sync::registry::{alloc_slot, free_slot};

#[test]
fn slots_fill_lowest_first_and_grow() {
    let mut table: Vec<Option<u32>> = Vec::new();
    assert_eq!(alloc_slot(&mut table, 11), Some(0));
    assert_eq!(alloc_slot(&mut table, 22), Some(1));
    assert_eq!(table, vec![Some(11), Some(22)]);
}

#[test]
fn freed_index_is_the_next_assigned() {
    let mut table: Vec<Option<u32>> = Vec::new();
    assert_eq!(alloc_slot(&mut table, 1), Some(0));
    assert_eq!(alloc_slot(&mut table, 2), Some(1));
    assert_eq!(alloc_slot(&mut table, 3), Some(2));
    free_slot(&mut table, 1);
    assert_eq!(table[1], None);
    // The lowest freed index is reused; the table does not grow.
    assert_eq!(alloc_slot(&mut table, 4), Some(1));
    assert_eq!(table.len(), 3);
    assert_eq!(table[1], Some(4));
}

#[test]
fn full_table_is_refused() {
    let mut table: Vec<Option<u32>> = Vec::new();
    for want in 0..10 {
        assert_eq!(alloc_slot(&mut table, want), Some(want as usize));
    }
    assert_eq!(alloc_slot(&mut table, 99), None);
    assert_eq!(table.len(), 10);
}
