use azdo_boards::batch::{exceeds_fetch_cap, plan_chunks};

#[test]
fn chunking_450_ids_gives_three_chunks() {
    let ids: Vec<u32> = (1..=450).collect();
    let chunks = plan_chunks(&ids);
    assert_eq!(chunks.len(), 3);
    assert_eq!(chunks[0].len(), 200);
    assert_eq!(chunks[1].len(), 200);
    assert_eq!(chunks[2].len(), 50);
    let flat: Vec<u32> = chunks.into_iter().flatten().collect();
    assert_eq!(flat, ids);
}

#[test]
fn cap_1500_ids_fetches_exactly_1000() {
    let ids: Vec<u32> = (1..=1500).collect();
    assert!(exceeds_fetch_cap(&ids));
    let chunks = plan_chunks(&ids);
    assert_eq!(chunks.len(), 5);
    for chunk in &chunks {
        assert_eq!(chunk.len(), 200);
    }
    let flat: Vec<u32> = chunks.into_iter().flatten().collect();
    assert_eq!(flat.len(), 1000);
    assert_eq!(flat, (1..=1000).collect::<Vec<u32>>());
}

#[test]
fn empty_id_list_gives_no_chunks() {
    let ids: Vec<u32> = vec![];
    assert!(!exceeds_fetch_cap(&ids));
    assert_eq!(plan_chunks(&ids).len(), 0);
}

#[test]
fn exactly_one_chunk_boundary() {
    let ids: Vec<u32> = (1..=200).collect();
    let chunks = plan_chunks(&ids);
    assert_eq!(chunks.len(), 1);
    assert_eq!(chunks[0], ids);
}

#[test]
fn single_id_gives_single_chunk() {
    let ids: Vec<u32> = vec![7];
    let chunks = plan_chunks(&ids);
    assert_eq!(chunks.len(), 1);
    assert_eq!(chunks[0], vec![7]);
}
