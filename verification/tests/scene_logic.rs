use river_power::env::{classify_extras, contains_text, is_hill_collider, SceneMarker};
use river_power::game_state::{check_ready, GameState};
use river_power::generator::{
    load_step, part_specs, plan_part_attachment, sort_rolls, Part, PartSpec, PART_COUNT,
    ROTOR_INDEX,
};
use river_power::river::{river_setup, RiverSetup, DROPS_COUNT};
use river_power::scenario::{next_target_index, switch_target};
use river_power::transporter::{
    is_bend, side_sign, track_count, track_joints, track_turn_steps, Roll, ROLLS_COUNT,
    TRACK_ARC_COUNT, TRACK_LINE_COUNT,
};

#[test]
fn loading_ends_when_no_marker_is_left() {
    assert_eq!(check_ready(GameState::Loading, 0), GameState::Game);
    assert_eq!(check_ready(GameState::Loading, 3), GameState::Loading);
    assert_eq!(check_ready(GameState::Game, 5), GameState::Game);
    assert_eq!(check_ready(GameState::Game, 0), GameState::Game);
}

#[test]
fn scene_starts_loading() {
    assert_eq!(GameState::default(), GameState::Loading);
}

#[test]
fn running_stays_running_over_a_series_of_checks() {
    let mut state = GameState::Loading;
    for count in [4usize, 2, 1] {
        state = check_ready(state, count);
        assert_eq!(state, GameState::Loading);
    }
    state = check_ready(state, 0);
    assert_eq!(state, GameState::Game);
    for count in [1usize, 7, 0, 3] {
        state = check_ready(state, count);
        assert_eq!(state, GameState::Game);
    }
}

#[test]
fn belt_piece_count() {
    assert_eq!(track_count(TRACK_LINE_COUNT, TRACK_ARC_COUNT), 32);
    assert_eq!(track_count(0, 0), 0);
    assert_eq!(track_count(3, 1), 8);
}

#[test]
fn bends_are_the_ends_of_each_half() {
    let count = track_count(TRACK_LINE_COUNT, TRACK_ARC_COUNT);
    let bends: Vec<usize> = (0..count)
        .filter(|&i| is_bend(i, count, TRACK_ARC_COUNT))
        .collect();
    let expected: Vec<usize> = (10..16).chain(26..32).collect();
    assert_eq!(bends, expected);
    assert!(!is_bend(32, count, TRACK_ARC_COUNT));
}

#[test]
fn turn_steps_of_the_belt() {
    let steps = track_turn_steps(TRACK_LINE_COUNT, TRACK_ARC_COUNT);
    assert_eq!(steps.len(), 32);
    assert_eq!(steps[0], 0);
    assert_eq!(steps[9], 0);
    assert_eq!(steps[10], 1);
    assert_eq!(steps[15], 6);
    assert_eq!(steps[16], 6);
    assert_eq!(steps[25], 6);
    assert_eq!(steps[26], 7);
    assert_eq!(steps[31], 12);
}

#[test]
fn belt_closes_with_a_full_turn() {
    for (line, arc) in [(10usize, 6usize), (1, 1), (4, 3), (0, 5), (5, 0)] {
        let steps = track_turn_steps(line, arc);
        let count = track_count(line, arc);
        if count > 0 {
            assert_eq!(steps[count - 1], 2 * arc);
            assert_eq!(steps[count / 2 - 1], arc);
        }
        for i in 1..steps.len() {
            assert!(steps[i] == steps[i - 1] || steps[i] == steps[i - 1] + 1);
        }
    }
}

#[test]
fn joints_close_the_belt() {
    let joints = track_joints(32);
    assert_eq!(joints.len(), 32);
    assert_eq!(joints[0], (0, 1));
    assert_eq!(joints[30], (30, 31));
    assert_eq!(joints[31], (31, 0));
    let mut followed = vec![0usize; 32];
    for (i, &(a, b)) in joints.iter().enumerate() {
        assert_eq!(a, i);
        followed[b] += 1;
    }
    assert!(followed.iter().all(|&n| n == 1));
}

#[test]
fn joints_of_tiny_belts() {
    assert!(track_joints(0).is_empty());
    assert_eq!(track_joints(1), vec![(0, 0)]);
    assert_eq!(track_joints(2), vec![(0, 1), (1, 0)]);
}

#[test]
fn sides_of_mirrored_parts() {
    assert_eq!(side_sign(0), -1);
    assert_eq!(side_sign(1), 1);
    assert_eq!(side_sign(ROLLS_COUNT as usize - 1), 1);
    assert_eq!(side_sign(7), 1);
}

#[test]
fn part_specs_of_a_complete_model() {
    let specs = part_specs(&vec![true; PART_COUNT]);
    assert_eq!(
        specs,
        vec![
            PartSpec { index: 0, sign: -1, is_rotor: false },
            PartSpec { index: 1, sign: 1, is_rotor: true },
        ]
    );
}

#[test]
fn part_specs_skip_missing_meshes() {
    assert_eq!(
        part_specs(&vec![false, true]),
        vec![PartSpec { index: ROTOR_INDEX, sign: 1, is_rotor: true }]
    );
    assert_eq!(
        part_specs(&vec![true, false]),
        vec![PartSpec { index: 0, sign: -1, is_rotor: false }]
    );
    assert!(part_specs(&vec![false, false]).is_empty());
    assert!(part_specs(&vec![]).is_empty());
}

#[test]
fn load_step_cases() {
    assert_eq!(load_step(false, false), (false, false));
    assert_eq!(load_step(false, true), (true, true));
    assert_eq!(load_step(true, false), (true, false));
    assert_eq!(load_step(true, true), (true, false));
}

#[test]
fn parts_spawn_only_once() {
    let mut loaded = false;
    let mut spawned = 0;
    for ready in [false, false, true, true, false, true] {
        let (flag, spawn) = load_step(loaded, ready);
        loaded = flag;
        if spawn {
            spawned += 1;
        }
    }
    assert!(loaded);
    assert_eq!(spawned, 1);
}

#[test]
fn rolls_sort_stably_by_index() {
    let rolls = vec![(10, Roll(1)), (11, Roll(0)), (12, Roll(1)), (13, Roll(0)), (14, Roll(255))];
    let sorted = sort_rolls(&rolls);
    assert_eq!(
        sorted,
        vec![(11, Roll(0)), (13, Roll(0)), (10, Roll(1)), (12, Roll(1)), (14, Roll(255))]
    );
    assert!(sort_rolls(&vec![]).is_empty());
}

#[test]
fn attachment_waits_for_rolls_parts_and_marker() {
    let rolls = vec![(5, Roll(1)), (7, Roll(0))];
    let parts = vec![(9, Part(0)), (8, Part(1))];
    assert!(plan_part_attachment(&vec![], &parts, Some(3)).is_none());
    assert!(plan_part_attachment(&rolls, &vec![], Some(3)).is_none());
    assert!(plan_part_attachment(&rolls, &parts, None).is_none());
}

#[test]
fn parts_hang_on_the_roll_of_their_index() {
    let rolls = vec![(5, Roll(1)), (7, Roll(0))];
    let parts = vec![(9, Part(0)), (8, Part(1))];
    let plan = plan_part_attachment(&rolls, &parts, Some(3)).unwrap();
    assert_eq!(plan.rotor_roll, 5);
    assert_eq!(plan.attachments, vec![(9, 7), (8, 5)]);
    assert_eq!(plan.finished_marker, 3);
}

#[test]
fn rotor_roll_is_second_by_index() {
    let rolls = vec![(40, Roll(2)), (41, Roll(1)), (42, Roll(0))];
    let parts = vec![(50, Part(1)), (51, Part(1)), (52, Part(2))];
    let plan = plan_part_attachment(&rolls, &parts, Some(60)).unwrap();
    assert_eq!(plan.rotor_roll, 41);
    assert_eq!(plan.attachments, vec![(50, 41), (51, 41), (52, 40)]);
}

#[test]
fn extras_are_recognised() {
    assert_eq!(classify_extras("{\"LanternLight\":\"\"}"), Some(SceneMarker::LanternLight));
    assert_eq!(classify_extras("{\"TransporterStand\":1}"), Some(SceneMarker::TransporterStand));
    assert_eq!(classify_extras("{\"RiverSource\":true}"), Some(SceneMarker::RiverSource));
    assert_eq!(classify_extras("{\"Tree\":1}"), None);
    assert_eq!(classify_extras(""), None);
    assert_eq!(classify_extras("lanternlight"), None);
}

#[test]
fn lantern_takes_precedence_over_other_markers() {
    assert_eq!(
        classify_extras("RiverSource TransporterStand LanternLight"),
        Some(SceneMarker::LanternLight)
    );
    assert_eq!(
        classify_extras("RiverSource TransporterStand"),
        Some(SceneMarker::TransporterStand)
    );
}

#[test]
fn hill_colliders_are_recognised() {
    assert!(is_hill_collider("hill"));
    assert!(is_hill_collider("hill.001"));
    assert!(is_hill_collider("green_hill_mesh"));
    assert!(!is_hill_collider("Hill"));
    assert!(!is_hill_collider("hil"));
    assert!(!is_hill_collider(""));
    assert!(is_hill_collider("Größe-hill"));
}

#[test]
fn text_containment_edge_cases() {
    assert!(contains_text("", ""));
    assert!(contains_text("abc", ""));
    assert!(!contains_text("ab", "abc"));
    assert!(contains_text("abc", "abc"));
    assert!(contains_text("aab", "ab"));
    assert!(contains_text("ééa", "éa"));
    assert!(!contains_text("abab", "bb"));
}

#[test]
fn camera_target_cycles() {
    assert_eq!(next_target_index(0, 4), 1);
    assert_eq!(next_target_index(3, 4), 0);
    assert_eq!(next_target_index(0, 1), 0);
    let mut index = 2;
    for _ in 0..4 {
        index = next_target_index(index, 4);
        assert!(index < 4);
    }
    assert_eq!(index, 2);
}

#[test]
fn camera_switch_on_key_press() {
    assert_eq!(switch_target(false, 2, 4), (2, None));
    assert_eq!(switch_target(true, 2, 4), (3, Some(3)));
    assert_eq!(switch_target(true, 3, 4), (0, Some(0)));
    assert_eq!(switch_target(false, 0, 0), (0, None));
}

#[test]
fn river_setup_waits_for_the_source() {
    assert_eq!(river_setup(None, Some(1)), None);
    assert_eq!(river_setup(None, None), None);
    assert_eq!(
        river_setup(Some(5), Some(6)),
        Some(RiverSetup { source_marker: 5, finished_marker: 6 })
    );
    assert_eq!(DROPS_COUNT, 1024);
}
