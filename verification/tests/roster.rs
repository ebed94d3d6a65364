use rps_sim::components::ReadImage;
use rps_sim::layers::Layers;
use rps_sim::roster::{CustomInfo, ImageRef, SpawnGroup};
use std::collections::HashMap;

fn default_roster() -> CustomInfo {
    let mut info = CustomInfo::new();
    info.reset();
    info
}

#[test]
fn new_roster_is_empty() {
    let info = CustomInfo::default();
    assert!(info.image_hash.is_empty());
    assert!(info.nums.is_empty());
    assert_eq!(info.len, 0);
}

#[test]
fn reset_gives_rock_paper_scissors_35_each() {
    let mut info = CustomInfo::new();
    info.image_hash.insert(9, ImageRef::Uploaded(4));
    info.nums.insert(9, 1);
    info.len = 9;
    info.reset();
    assert_eq!(info.len, 3);
    assert_eq!(info.image_hash.len(), 3);
    assert_eq!(info.image_hash[&1], ImageRef::Rock);
    assert_eq!(info.image_hash[&2], ImageRef::Paper);
    assert_eq!(info.image_hash[&3], ImageRef::Scissors);
    assert_eq!(info.nums, HashMap::from([(1, 35), (2, 35), (3, 35)]));
}

#[test]
fn add_type_appends_a_rock_of_35() {
    let mut info = default_roster();
    assert!(info.add_type());
    assert_eq!(info.len, 4);
    assert_eq!(info.image_hash[&4], ImageRef::Rock);
    assert_eq!(info.nums[&4], 35);
}

#[test]
fn add_type_stops_at_thirty() {
    let mut info = default_roster();
    while info.len < 30 {
        assert!(info.add_type());
    }
    assert!(!info.add_type());
    assert_eq!(info.len, 30);
    assert_eq!(info.image_hash.len(), 30);
}

#[test]
fn remove_type_shifts_later_types_down_and_keeps_the_last_entry() {
    let mut info = default_roster();
    info.set_count(3, 7);
    info.remove_type(1);
    assert_eq!(info.len, 2);
    assert_eq!(info.image_hash[&1], ImageRef::Paper);
    assert_eq!(info.image_hash[&2], ImageRef::Scissors);
    assert_eq!(info.nums[&2], 7);
    // The entry of the old last type stays behind.
    assert_eq!(info.image_hash[&3], ImageRef::Scissors);
    assert_eq!(info.nums[&3], 7);
}

#[test]
fn remove_last_type_drops_its_entry() {
    let mut info = default_roster();
    info.remove_type(3);
    assert_eq!(info.len, 2);
    assert!(!info.image_hash.contains_key(&3));
    assert!(!info.nums.contains_key(&3));
    assert_eq!(info.image_hash[&2], ImageRef::Paper);
}

#[test]
fn set_count_stores_the_absolute_value() {
    let mut info = default_roster();
    info.set_count(2, -12);
    assert_eq!(info.nums[&2], 12);
    info.set_count(8, 5);
    assert_eq!(info.nums[&8], 5);
    assert_eq!(info.len, 3);
}

#[test]
fn images_for_collisions_and_icons() {
    let mut info = default_roster();
    info.set_image(2, ImageRef::Uploaded(0));
    assert_eq!(info.collision_image(2), ImageRef::Uploaded(0));
    // Fallback: built-in image number t % 3.
    assert_eq!(info.collision_image(4), ImageRef::Paper);
    assert_eq!(info.collision_image(6), ImageRef::Rock);
    assert_eq!(info.collision_image(5), ImageRef::Scissors);
    assert_eq!(info.icon_image(7), ImageRef::Rock);
    assert_eq!(info.icon_image(3), ImageRef::Scissors);
}

#[test]
fn shown_count_falls_back_to_35() {
    let mut info = default_roster();
    info.nums.insert(2, -4);
    assert_eq!(info.shown_count(2), 4);
    assert_eq!(info.shown_count(9), 35);
}

#[test]
fn spawn_plan_of_default_roster() {
    let info = default_roster();
    let plan = info.spawn_plan();
    assert_eq!(
        plan,
        vec![
            SpawnGroup { type_id: 1, image: ImageRef::Rock, count: 35, layers: Layers { memberships: 2, filters: !2u32 } },
            SpawnGroup { type_id: 2, image: ImageRef::Paper, count: 35, layers: Layers { memberships: 4, filters: !4u32 } },
            SpawnGroup { type_id: 3, image: ImageRef::Scissors, count: 35, layers: Layers { memberships: 8, filters: !8u32 } },
        ]
    );
}

#[test]
fn spawn_plan_skips_incomplete_types_and_uses_absolute_counts() {
    let mut info = default_roster();
    info.nums.remove(&2);
    info.nums.insert(3, -5);
    info.image_hash.insert(7, ImageRef::Paper);
    info.nums.insert(7, 1);
    let plan = info.spawn_plan();
    assert_eq!(plan.len(), 2);
    assert_eq!((plan[0].type_id, plan[0].count), (1, 35));
    assert_eq!((plan[1].type_id, plan[1].count), (3, 5));
}

#[test]
fn apply_shuffle_moves_pairs_together() {
    let mut info = default_roster();
    info.set_count(1, 10);
    info.set_count(2, 20);
    info.set_count(3, 30);
    let keys = vec![1, 2, 3];
    let perm = vec![2usize, 0, 1];
    info.apply_shuffle(&keys, &perm);
    assert_eq!((info.image_hash[&1], info.nums[&1]), (ImageRef::Scissors, 30));
    assert_eq!((info.image_hash[&2], info.nums[&2]), (ImageRef::Rock, 10));
    assert_eq!((info.image_hash[&3], info.nums[&3]), (ImageRef::Paper, 20));
}

#[test]
fn shuffle_redeals_pairs_and_eventually_changes_the_order() {
    let mut info = default_roster();
    while info.len < 30 {
        info.add_type();
    }
    for t in 1..=30 {
        info.set_count(t, t);
        info.set_image(t, ImageRef::Uploaded(t as u64));
    }
    let mut changed = false;
    for _ in 0..5 {
        info.shuffle_types();
        let mut pairs: Vec<(u64, i32)> = (1..=30)
            .map(|t| match info.image_hash[&t] {
                ImageRef::Uploaded(u) => (u, info.nums[&t]),
                other => panic!("unexpected image {:?}", other),
            })
            .collect();
        for (u, n) in &pairs {
            assert_eq!(*u as i32, *n);
        }
        if pairs.iter().enumerate().any(|(i, (u, _))| *u != (i as u64) + 1) {
            changed = true;
        }
        pairs.sort();
        assert_eq!(pairs, (1..=30).map(|t| (t as u64, t as i32)).collect::<Vec<_>>());
    }
    assert!(changed);
    assert_eq!(info.len, 30);
}

fn png_bytes(width: u32, height: u32, pixels: Vec<u8>) -> Vec<u8> {
    let img = image::RgbaImage::from_raw(width, height, pixels).unwrap();
    let mut out = std::io::Cursor::new(Vec::new());
    img.write_to(&mut out, image::ImageFormat::Png).unwrap();
    out.into_inner()
}

#[test]
fn receive_image_decodes_and_assigns_the_upload() {
    let mut info = default_roster();
    let pixels = vec![255, 0, 0, 255, 0, 0, 255, 128];
    let read = ReadImage(2, png_bytes(2, 1, pixels.clone()));
    let decoded = info.receive_image(&read, 7).unwrap();
    assert_eq!((decoded.width, decoded.height), (2, 1));
    assert_eq!(decoded.pixels, pixels);
    assert_eq!(info.image_hash[&2], ImageRef::Uploaded(7));
    assert_eq!(info.nums[&2], 35);
}

#[test]
fn receive_image_ignores_bytes_that_are_no_image() {
    let mut info = default_roster();
    let read = ReadImage(2, b"not an image".to_vec());
    assert!(info.receive_image(&read, 7).is_none());
    assert_eq!(info.image_hash[&2], ImageRef::Paper);
}

#[test]
fn roster_stays_complete_after_adding_and_removing() {
    let mut info = default_roster();
    info.add_type();
    info.add_type();
    info.remove_type(2);
    assert_eq!(info.len, 4);
    for t in 1..=info.len {
        assert!(info.image_hash.contains_key(&t) && info.nums.contains_key(&t));
    }
    assert_eq!(info.image_hash[&1], ImageRef::Rock);
    assert_eq!(info.image_hash[&2], ImageRef::Scissors);
    assert_eq!(info.image_hash[&3], ImageRef::Rock);
    assert_eq!(info.spawn_plan().len(), 4);
}

#[test]
fn spawn_plan_with_more_than_31_types_listed() {
    let mut info = default_roster();
    info.len = 40;
    info.image_hash.insert(35, ImageRef::Rock);
    let plan = info.spawn_plan();
    assert_eq!(plan.len(), 3);
}

#[test]
fn collision_image_of_a_negative_type_uses_its_usize_value() {
    let info = default_roster();
    let expected = [ImageRef::Rock, ImageRef::Paper, ImageRef::Scissors][(-1i32 as usize) % 3];
    assert_eq!(info.collision_image(-1), expected);
    assert_eq!(info.collision_image(0), ImageRef::Rock);
}
