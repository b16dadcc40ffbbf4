use pufferfish::{batch_draw_commands, DrawCommand, ResourceManager, SpriteData};

#[test]
fn sprite_data_checks_its_size() {
    let s = SpriteData::new(2, 1, vec![0; 8]).expect("well-sized pixel list");
    assert_eq!(s.width(), 2);
    assert_eq!(s.height(), 1);
    assert_eq!(s.inner().len(), 8);
    assert!(SpriteData::new(2, 1, vec![0; 7]).is_none());
    assert!(SpriteData::new(2, 2, vec![0; 8]).is_none());
}

#[test]
fn batching_offsets_indices_and_groups_runs() {
    let mut rm: ResourceManager<u32> = ResourceManager::new();
    let sprite = rm.allocate(1);
    let quad = vec![0u16, 3, 1, 1, 3, 2];
    let cmds = vec![
        DrawCommand { sprite: None, vert_count: 4, indices: quad.clone() },
        DrawCommand { sprite: Some(sprite), vert_count: 4, indices: quad.clone() },
        DrawCommand { sprite: Some(sprite), vert_count: 4, indices: quad.clone() },
    ];
    let (indices, batches) = batch_draw_commands(&cmds);
    assert_eq!(
        indices,
        vec![0, 3, 1, 1, 3, 2, 4, 7, 5, 5, 7, 6, 8, 11, 9, 9, 11, 10]
    );
    assert_eq!(batches.len(), 2);
    assert_eq!(batches[0].sprite, None);
    assert_eq!(batches[0].start, 0);
    assert_eq!(batches[0].count, 6);
    assert_eq!(batches[1].sprite, Some(sprite));
    assert_eq!(batches[1].start, 6);
    assert_eq!(batches[1].count, 12);
}

#[test]
fn batching_nothing_yields_nothing() {
    let (indices, batches) = batch_draw_commands(&vec![]);
    assert!(indices.is_empty());
    assert!(batches.is_empty());
}
