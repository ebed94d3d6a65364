use rps_sim::collision::{apply_retypes, collision_event, collision_frame, Retype};
use rps_sim::layers::{converted_layers, get_layer, try_get_layer, type_layers, wall_layers, Layers, WALL_MEMBERSHIP};
use rps_sim::rules::{collision_outcome, Conversion};

#[test]
fn get_layer_finds_lowest_type_bit() {
    assert_eq!(get_layer(0b1000, 3), 3);
    assert_eq!(get_layer(0b0110, 3), 1);
    assert_eq!(get_layer(0b0100, 3), 2);
}

#[test]
fn get_layer_ignores_bits_beyond_len_and_the_wall_bit() {
    assert_eq!(get_layer(0b1_0000, 3), 0);
    assert_eq!(get_layer(WALL_MEMBERSHIP, 3), 0);
    assert_eq!(get_layer(0, 30), 0);
    assert_eq!(get_layer(u32::MAX, 0), 0);
    assert_eq!(get_layer(1u32 << 31, 31), 31);
}

#[test]
fn type_layers_round_trip_through_get_layer() {
    for t in 1..=30 {
        let l = type_layers(t);
        assert_eq!(l.memberships, 1u32 << t);
        assert_eq!(l.filters, !(1u32 << t));
        assert_eq!(get_layer(l.memberships, 30), t);
    }
}

#[test]
fn walls_and_converted_layers() {
    assert_eq!(wall_layers(), Layers { memberships: 1, filters: 0xFFFF_FFFE });
    assert_eq!(converted_layers(0b100), Layers { memberships: 0b100, filters: !0b100u32 });
}

#[test]
fn paper_beats_rock_scissors_beat_paper_rock_beats_scissors() {
    assert_eq!(collision_outcome(1, 2, 3), Conversion::FirstBecomes(2));
    assert_eq!(collision_outcome(2, 1, 3), Conversion::SecondBecomes(2));
    assert_eq!(collision_outcome(2, 3, 3), Conversion::FirstBecomes(3));
    assert_eq!(collision_outcome(3, 1, 3), Conversion::FirstBecomes(1));
    assert_eq!(collision_outcome(1, 3, 3), Conversion::SecondBecomes(1));
}

#[test]
fn same_type_or_untyped_bodies_do_nothing() {
    assert_eq!(collision_outcome(2, 2, 3), Conversion::Unchanged);
    assert_eq!(collision_outcome(0, 2, 3), Conversion::Unchanged);
    assert_eq!(collision_outcome(1, 0, 3), Conversion::Unchanged);
}

#[test]
fn distant_types_do_nothing() {
    assert_eq!(collision_outcome(1, 3, 5), Conversion::Unchanged);
    assert_eq!(collision_outcome(5, 1, 5), Conversion::FirstBecomes(1));
    assert_eq!(collision_outcome(2, 4, 5), Conversion::Unchanged);
}

#[test]
fn outcome_is_symmetric_with_three_types_or_more() {
    for len in 3..=6 {
        for a in 0..=len {
            for b in 0..=len {
                let ab = collision_outcome(a, b, len);
                let ba = collision_outcome(b, a, len);
                let mirrored = match ab {
                    Conversion::Unchanged => Conversion::Unchanged,
                    Conversion::FirstBecomes(t) => Conversion::SecondBecomes(t),
                    Conversion::SecondBecomes(t) => Conversion::FirstBecomes(t),
                };
                assert_eq!(ba, mirrored);
            }
        }
    }
}

#[test]
fn with_two_types_the_first_body_loses() {
    assert_eq!(collision_outcome(1, 2, 2), Conversion::FirstBecomes(2));
    assert_eq!(collision_outcome(2, 1, 2), Conversion::FirstBecomes(1));
}

#[test]
fn each_type_is_beaten_by_its_successor_only() {
    let len = 4;
    for loser in 1..=len {
        let winners: Vec<i32> = (1..=len)
            .filter(|w| collision_outcome(loser, *w, len) == Conversion::FirstBecomes(*w))
            .collect();
        let successor = if loser == len { 1 } else { loser + 1 };
        assert_eq!(winners, vec![successor]);
    }
}

#[test]
fn collision_event_converts_loser_to_winner_layers() {
    let masks = vec![1u32 << 1, 1u32 << 2, WALL_MEMBERSHIP];
    let change = collision_event(&masks, 0, 1, 3).unwrap();
    assert_eq!(
        change,
        Retype { entity: 0, new_type: 2, layers: Layers { memberships: 1 << 2, filters: !(1u32 << 2) } }
    );
    assert_eq!(collision_event(&masks, 0, 2, 3), None);
}

#[test]
fn frame_decides_on_masks_from_the_start_of_the_frame() {
    // rock(0) meets paper(1), then rock(0) meets scissors(2): both decided on
    // the frame's first masks, so body 0 is converted to paper and body 2 to rock.
    let masks = vec![1u32 << 1, 1u32 << 2, 1u32 << 3];
    let events = vec![(0usize, 1usize), (0, 2)];
    let changes = collision_frame(&masks, &events, 3);
    assert_eq!(changes.len(), 2);
    assert_eq!((changes[0].entity, changes[0].new_type), (0, 2));
    assert_eq!((changes[1].entity, changes[1].new_type), (2, 1));
    let mut after = masks.clone();
    apply_retypes(&mut after, &changes);
    assert_eq!(after, vec![1u32 << 2, 1u32 << 2, 1u32 << 1]);
}

#[test]
fn untouched_bodies_keep_their_layers_and_population_is_kept() {
    let masks = vec![1u32 << 1, 1u32 << 2, 1u32 << 3, 1u32 << 1];
    let events = vec![(0usize, 1usize)];
    let changes = collision_frame(&masks, &events, 3);
    let mut after = masks.clone();
    apply_retypes(&mut after, &changes);
    assert_eq!(after.len(), masks.len());
    assert_eq!(after[2], masks[2]);
    assert_eq!(after[3], masks[3]);
    assert_eq!(after[1], masks[1]);
    assert_eq!(after[0], masks[1]);
}

#[test]
fn later_change_to_same_body_wins() {
    // Body 1 (paper) loses to two scissors in one frame; both changes apply in order.
    let masks = vec![1u32 << 3 | 1, 1u32 << 2, 1u32 << 3];
    let events = vec![(1usize, 0usize), (1, 2)];
    let changes = collision_frame(&masks, &events, 3);
    assert_eq!(changes.len(), 2);
    let mut after = masks.clone();
    apply_retypes(&mut after, &changes);
    assert_eq!(after[1], 1u32 << 3);
}

#[test]
fn no_two_types_beat_each_other_with_three_or_more() {
    for len in 3..=8 {
        for a in 1..=len {
            for b in 1..=len {
                let a_wins = collision_outcome(b, a, len) == Conversion::FirstBecomes(a);
                let b_wins = collision_outcome(a, b, len) == Conversion::FirstBecomes(b);
                assert!(!(a_wins && b_wins));
            }
        }
    }
}

fn count(masks: &[u32], len: i32, t: i32) -> usize {
    masks.iter().filter(|m| get_layer(**m, len) == t).count()
}

#[test]
fn one_conversion_moves_one_player_between_types() {
    let masks = vec![1u32 << 1, 1u32 << 2, 1u32 << 1, 1u32 << 3, 1u32 << 3];
    let changes = collision_frame(&masks, &vec![(3usize, 0usize)], 3);
    assert_eq!(changes.len(), 1);
    let mut after = masks.clone();
    apply_retypes(&mut after, &changes);
    // Rock (1) beats scissors (3): one scissors player becomes rock.
    assert_eq!(count(&after, 3, 1), count(&masks, 3, 1) + 1);
    assert_eq!(count(&after, 3, 3) + 1, count(&masks, 3, 3));
    assert_eq!(count(&after, 3, 2), count(&masks, 3, 2));
}

#[test]
fn more_than_31_types_read_masks_with_a_low_bit() {
    assert_eq!(get_layer(1u32 << 5, 40), 5);
    assert_eq!(try_get_layer(1u32 << 5, 40), Some(5));
    assert_eq!(try_get_layer(WALL_MEMBERSHIP, 40), None);
    assert_eq!(try_get_layer(WALL_MEMBERSHIP, 31), Some(0));
    assert_eq!(try_get_layer(0, 3), Some(0));
}

#[test]
fn collider_order_does_not_matter_for_collision_events() {
    let masks = vec![1u32 << 1, 1u32 << 2, 1u32 << 3, 1u32 << 1];
    for a in 0..4 {
        for b in 0..4 {
            assert_eq!(collision_event(&masks, a, b, 3), collision_event(&masks, b, a, 3));
        }
    }
}

#[test]
fn frame_keeps_players_on_single_type_bits() {
    let masks: Vec<u32> = vec![1 << 1, 1 << 2, 1 << 3, 1 << 2, 1 << 1];
    let events = vec![(0usize, 1usize), (2, 4), (3, 2), (1, 2)];
    let changes = collision_frame(&masks, &events, 3);
    for c in &changes {
        assert_eq!(c.layers.filters, !c.layers.memberships);
        assert_eq!(c.layers.memberships.count_ones(), 1);
        assert!(c.new_type >= 1 && c.new_type <= 3);
        assert_eq!(get_layer(c.layers.memberships, 3), c.new_type);
    }
    let mut after = masks.clone();
    apply_retypes(&mut after, &changes);
    assert_eq!(after.len(), masks.len());
    for m in &after {
        assert_eq!(m.count_ones(), 1);
        let t = get_layer(*m, 3);
        assert!(t >= 1 && *m == 1u32 << t);
    }
}
