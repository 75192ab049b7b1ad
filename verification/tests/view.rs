use raycaster::fixed::{FRAC_PI_2, ONE, PI, TAU};
use raycaster::map::GridMap;
use raycaster::player::State;
use raycaster::view::{wall_height, ANGLE_STEP, HALF_FOV, VIEW_COLUMNS, WALL_HEIGHT};

fn corridor(heading: i64) -> State {
    // One open row between two rows of wall; the player stands in the
    // middle of it.
    State {
        map: GridMap { rows: vec![0xffff, 0x0000, 0xffff] },
        player_x: 8 * ONE,
        player_y: 3 * ONE / 2,
        player_angle: heading,
    }
}

#[test]
fn view_constants() {
    assert_eq!(VIEW_COLUMNS, 160);
    assert_eq!(WALL_HEIGHT, 100);
    let fov = std::f64::consts::PI / 2.7;
    assert_eq!(HALF_FOV, (fov * 0.5 * ONE as f64) as i64);
    assert_eq!(ANGLE_STEP, (fov / 160.0 * ONE as f64).round() as i64);
}

#[test]
fn wall_height_is_inverse_to_depth() {
    assert_eq!(wall_height(ONE, ONE), 100);
    assert_eq!(wall_height(ONE / 2, ONE), 200);
    assert_eq!(wall_height(2 * ONE, ONE), 50);
    assert_eq!(wall_height(ONE, ONE / 2), 200);
    assert_eq!(wall_height(3 * ONE, 46_260), 47);
    assert_eq!(wall_height(3 * ONE, ONE), 33);
    assert_eq!(wall_height(ONE, -ONE), -100);
    assert_eq!(wall_height(-3 * ONE, ONE), -33);
    assert_eq!(wall_height(-ONE, -ONE), 100);
    assert_eq!(wall_height(1000 * ONE, ONE), 0);
}

#[test]
fn wall_height_saturates() {
    assert_eq!(wall_height(0, ONE), i32::MAX);
    assert_eq!(wall_height(ONE, 0), i32::MAX);
    assert_eq!(wall_height(0, 0), i32::MAX);
    assert_eq!(wall_height(1, 1), i32::MAX);
    assert_eq!(wall_height(1, -1), i32::MIN);
    assert_eq!(wall_height(i64::MAX, i64::MAX), 0);
    assert_eq!(wall_height(i64::MIN, i64::MIN), 0);
    assert_eq!(wall_height(i64::MIN, i64::MAX), 0);
    assert_eq!(wall_height(200, 1), 2_147_483_647);
    assert_eq!(wall_height(201, 1), 2_136_799_649);
}

#[test]
fn view_from_the_start() {
    let expected: [(i32, bool); 160] = [
        (200, true), (200, true), (200, true), (200, true), (200, true), (200, true),
        (200, true), (200, true), (200, true), (200, true), (200, true), (200, true),
        (200, true), (200, true), (200, true), (200, true), (200, true), (200, true),
        (200, true), (200, true), (200, true), (200, true), (200, true), (200, true),
        (200, true), (200, true), (200, true), (200, true), (200, true), (200, true),
        (200, true), (200, true), (200, true), (200, true), (200, true), (200, true),
        (200, true), (200, true), (200, true), (200, true), (200, true), (200, true),
        (200, true), (200, true), (200, true), (200, true), (199, true), (199, true),
        (199, true), (199, true), (199, true), (199, true), (199, true), (199, true),
        (199, true), (199, true), (199, true), (199, true), (199, true), (199, true),
        (199, true), (199, true), (199, true), (199, true), (199, true), (199, true),
        (199, true), (199, true), (199, true), (199, true), (199, true), (199, true),
        (199, true), (200, true), (200, true), (200, true), (200, true), (200, true),
        (200, true), (200, true), (200, true), (200, true), (200, true), (200, true),
        (200, true), (200, true), (200, true), (200, true), (199, true), (199, true),
        (199, true), (199, true), (199, true), (199, true), (199, true), (199, true),
        (199, true), (199, true), (199, true), (199, true), (199, true), (199, true),
        (199, true), (199, true), (199, true), (199, true), (199, true), (199, true),
        (199, true), (199, true), (199, true), (199, true), (199, true), (199, true),
        (199, true), (199, true), (200, true), (200, true), (200, true), (200, true),
        (200, true), (200, true), (200, true), (200, true), (200, true), (200, true),
        (200, true), (200, true), (200, true), (200, true), (200, true), (200, true),
        (200, true), (200, true), (200, true), (200, true), (200, true), (200, true),
        (200, true), (200, true), (200, true), (200, true), (200, true), (200, true),
        (200, true), (200, true), (200, true), (200, true), (200, true), (200, true),
        (200, true), (200, true), (200, true), (200, true), (200, true), (200, true),
        (200, true), (200, true), (200, true), (200, true),
    ];
    assert_eq!(State::start().get_view(), expected);
}

#[test]
fn view_from_the_start_turned_by_a_radian() {
    let expected: [(i32, bool); 160] = [
        (239, false), (238, false), (237, false), (236, false), (235, false), (234, false),
        (233, false), (232, false), (230, false), (229, false), (228, false), (227, false),
        (226, false), (225, false), (224, false), (223, false), (222, false), (221, false),
        (220, false), (219, false), (218, false), (217, false), (216, false), (215, false),
        (215, false), (214, false), (213, false), (212, false), (211, false), (210, false),
        (209, false), (208, false), (207, false), (206, false), (205, false), (205, false),
        (204, false), (203, false), (202, false), (201, false), (200, false), (199, false),
        (198, false), (198, false), (197, false), (196, false), (195, false), (194, false),
        (193, false), (193, false), (192, false), (191, false), (190, false), (189, false),
        (188, false), (188, false), (187, false), (186, false), (185, false), (184, false),
        (184, false), (183, false), (182, false), (181, false), (180, false), (180, false),
        (179, false), (178, false), (177, false), (176, false), (176, false), (175, false),
        (174, false), (173, false), (172, false), (172, false), (171, false), (170, false),
        (169, false), (168, false), (168, false), (167, false), (166, false), (165, false),
        (165, false), (164, false), (163, false), (162, false), (161, false), (161, false),
        (160, false), (159, false), (158, false), (157, false), (157, false), (156, false),
        (155, false), (154, false), (154, false), (153, false), (152, false), (151, false),
        (150, false), (150, false), (149, false), (148, false), (147, false), (146, false),
        (145, false), (145, false), (145, true), (146, true), (148, true), (149, true),
        (150, true), (152, true), (153, true), (154, true), (155, true), (157, true),
        (158, true), (159, true), (161, true), (162, true), (164, true), (165, true),
        (166, true), (168, true), (169, true), (170, true), (172, true), (173, true),
        (175, true), (176, true), (178, true), (179, true), (180, true), (182, true),
        (183, true), (185, true), (186, true), (188, true), (189, true), (191, true),
        (192, true), (194, true), (196, true), (197, true), (199, true), (200, true),
        (202, true), (204, true), (205, true), (207, true), (208, true), (210, true),
        (212, true), (214, true), (215, true), (217, true),
    ];
    let mut state = State::start();
    state.player_angle = ONE;
    assert_eq!(state.get_view(), expected);
}

#[test]
fn view_from_the_middle_of_the_arena() {
    let expected: [(i32, bool); 160] = [
        (237, false), (236, false), (234, false), (233, false), (232, false), (230, false),
        (229, false), (228, false), (227, false), (225, false), (224, false), (223, false),
        (222, false), (220, false), (219, false), (218, false), (217, false), (215, false),
        (214, false), (213, false), (212, false), (211, false), (210, false), (208, false),
        (207, false), (206, false), (205, false), (204, false), (203, false), (202, false),
        (201, false), (200, false), (198, false), (197, false), (196, false), (195, false),
        (194, false), (193, false), (192, false), (191, false), (190, false), (189, false),
        (188, false), (187, false), (186, false), (185, false), (184, false), (183, false),
        (182, false), (181, false), (180, false), (179, false), (178, false), (177, false),
        (176, false), (175, false), (174, false), (173, false), (172, false), (171, false),
        (170, false), (169, false), (168, false), (167, false), (166, false), (165, false),
        (164, false), (163, false), (162, false), (161, false), (160, false), (159, false),
        (158, false), (157, false), (156, false), (156, false), (155, false), (154, false),
        (153, false), (152, false), (151, false), (150, false), (149, false), (148, false),
        (147, false), (146, false), (145, false), (144, false), (143, false), (142, false),
        (141, false), (140, false), (139, false), (138, false), (137, false), (136, false),
        (136, false), (135, false), (134, false), (133, false), (132, false), (131, false),
        (130, false), (129, false), (128, false), (127, false), (126, false), (125, false),
        (124, false), (123, false), (122, false), (121, false), (120, false), (119, false),
        (118, false), (117, false), (116, false), (115, false), (114, false), (113, false),
        (112, false), (111, false), (110, false), (109, false), (108, false), (107, false),
        (105, false), (104, false), (103, false), (102, false), (101, false), (100, false),
        (99, false), (98, false), (97, false), (96, false), (95, false), (93, false),
        (92, false), (91, false), (90, false), (89, false), (88, false), (87, false),
        (85, false), (84, false), (83, false), (82, false), (81, false), (79, false),
        (78, false), (77, false), (76, false), (74, false), (73, true), (74, true), (74, true),
        (75, true), (75, true), (76, true),
    ];
    let mut state = State::start();
    state.player_x = 13 * ONE / 2;
    state.player_y = 7 * ONE / 2;
    state.player_angle = 4 * ONE;
    assert_eq!(state.get_view(), expected);
}

#[test]
fn view_along_a_corridor() {
    let expected: [(i32, bool); 160] = [
        (131, false), (129, false), (127, false), (125, false), (123, false), (121, false),
        (119, false), (117, false), (115, false), (113, false), (111, false), (109, false),
        (108, false), (106, false), (104, false), (102, false), (100, false), (98, false),
        (97, false), (95, false), (93, false), (91, false), (89, false), (88, false),
        (86, false), (84, false), (83, false), (81, false), (79, false), (78, false),
        (76, false), (74, false), (73, false), (71, false), (69, false), (68, false),
        (66, false), (64, false), (63, false), (61, false), (60, false), (58, false),
        (56, false), (55, false), (53, false), (52, false), (50, false), (49, false),
        (47, false), (46, false), (44, false), (43, false), (41, false), (40, false),
        (38, false), (37, false), (35, false), (34, false), (32, false), (31, false),
        (29, false), (28, false), (26, false), (25, false), (23, false), (22, false),
        (20, false), (19, false), (17, false), (16, false), (14, false), (13, false), (12, true),
        (12, true), (12, true), (12, true), (12, true), (12, true), (12, true), (12, true),
        (12, true), (12, true), (12, true), (12, true), (12, true), (12, true), (12, true),
        (12, true), (12, true), (13, false), (14, false), (16, false), (17, false), (19, false),
        (20, false), (22, false), (23, false), (25, false), (26, false), (28, false),
        (29, false), (31, false), (32, false), (34, false), (35, false), (37, false),
        (38, false), (40, false), (41, false), (43, false), (44, false), (46, false),
        (47, false), (49, false), (50, false), (52, false), (54, false), (55, false),
        (57, false), (58, false), (60, false), (61, false), (63, false), (65, false),
        (66, false), (68, false), (70, false), (71, false), (73, false), (74, false),
        (76, false), (78, false), (79, false), (81, false), (83, false), (85, false),
        (86, false), (88, false), (90, false), (91, false), (93, false), (95, false),
        (97, false), (99, false), (100, false), (102, false), (104, false), (106, false),
        (108, false), (110, false), (112, false), (114, false), (115, false), (117, false),
        (119, false), (121, false), (123, false), (125, false), (127, false), (130, false),
    ];
    assert_eq!(corridor(0).get_view(), expected);
}

#[test]
fn view_is_the_same_when_asked_twice() {
    let state = State::start();
    assert_eq!(state.get_view(), state.get_view());
    let mut state = State::start();
    for _ in 0..37 {
        state.update(true, false, true, false);
    }
    let first = state.get_view();
    let second = state.get_view();
    assert_eq!(first, second);
    assert_eq!(state.player_angle, 37 * raycaster::player::STEP_SIZE);
}

#[test]
fn view_repeats_after_a_turn_of_the_heading() {
    let mut state = State::start();
    state.player_x = 13 * ONE / 2;
    state.player_y = 7 * ONE / 2;
    state.player_angle = 4 * ONE;
    let base = state.get_view();
    for turns in [-3i64, -1, 1, 2, 100_000] {
        state.player_angle = 4 * ONE + turns * TAU;
        assert_eq!(state.get_view(), base);
    }
}

#[test]
fn view_works_at_the_ends_of_the_heading_range() {
    let mut state = State::start();
    state.player_angle = i64::MAX;
    let high = state.get_view();
    state.player_angle = i64::MAX.rem_euclid(TAU);
    assert_eq!(state.get_view(), high);
    state.player_angle = i64::MIN;
    let low = state.get_view();
    state.player_angle = i64::MIN.rem_euclid(TAU);
    assert_eq!(state.get_view(), low);
}

#[test]
fn view_after_a_walk() {
    let mut state = State::start();
    for _ in 0..200 {
        state.update(true, false, false, true);
    }
    let view = state.get_view();
    assert_eq!(view[0], (148, true));
    assert_eq!(view[40], (182, true));
    assert_eq!(view[80], (210, true));
    assert_eq!(view[120], (239, true));
    assert_eq!(view[159], (273, true));
}

#[test]
fn corridor_wall_seen_face_on_is_flat() {
    // Facing either wall of the corridor from its middle, half a cell away:
    // with the fisheye correction every column shows the wall at the height
    // of its nearest point, to within a pixel of rounding, so that going
    // outward from the centre the height never rises by more than that.
    for heading in [FRAC_PI_2, PI + FRAC_PI_2] {
        let view = corridor(heading).get_view();
        for (column, (height, shadow)) in view.iter().enumerate() {
            assert!(*height == 199 || *height == 200, "column {column}: {height}");
            assert!(!*shadow, "column {column}");
        }
        assert_eq!(view[0].0, 200);
        assert_eq!(view[79].0, 200);
        assert_eq!(view[80].0, 200);
        assert_eq!(view[159].0, 200);
        for column in 80..159 {
            assert!(view[column + 1].0 <= view[column].0 + 1);
        }
        for column in (1..80).rev() {
            assert!(view[column - 1].0 <= view[column].0 + 1);
        }
    }
}

#[test]
fn corridor_seen_lengthwise_opens_toward_the_centre() {
    // Looking along the corridor the far end is in the middle of the screen
    // and the side walls close in toward the edges.
    let view = corridor(0).get_view();
    assert_eq!(view[79], (12, true));
    assert_eq!(view[80], (12, true));
    assert_eq!(view[0], (131, false));
    assert_eq!(view[159], (130, false));
    for column in 80..159 {
        assert!(view[column + 1].0 >= view[column].0);
    }
    for column in (1..80).rev() {
        assert!(view[column - 1].0 >= view[column].0);
    }
}

#[test]
fn shadow_marks_the_vertical_grid_lines() {
    let state = State::start();
    let view = state.get_view();
    for (column, (_, shadow)) in view.iter().enumerate() {
        let angle = HALF_FOV - column as i64 * ANGLE_STEP;
        let h = state.horizontal_intersection(angle);
        let v = state.vertical_intersection(angle);
        assert_eq!(*shadow, !(h < v), "column {column}");
    }
}

#[test]
fn heights_follow_the_nearer_intersection() {
    let mut state = State::start();
    state.player_angle = ONE;
    let view = state.get_view();
    for (column, (height, shadow)) in view.iter().enumerate() {
        let angle = ONE + HALF_FOV - column as i64 * ANGLE_STEP;
        let h = state.horizontal_intersection(angle);
        let v = state.vertical_intersection(angle);
        let nearest = if *shadow { v } else { h };
        assert_eq!(nearest, h.min(v));
        let cosine = raycaster::trig::cosf(HALF_FOV - column as i64 * ANGLE_STEP);
        assert_eq!(*height, wall_height(nearest, cosine), "column {column}");
    }
}

#[test]
fn heights_are_never_negative() {
    let mut state = State::start();
    for frame in 0..300u32 {
        state.update(frame % 4 != 0, frame % 9 == 0, frame % 2 == 0, frame % 7 == 0);
        for (column, (height, _)) in state.get_view().iter().enumerate() {
            assert!(*height >= 0, "frame {frame}, column {column}");
        }
    }
    let mut state = corridor(0);
    state.player_y = ONE;
    for heading in [0, FRAC_PI_2, PI, PI + FRAC_PI_2, 12_345, -54_321] {
        state.player_angle = heading;
        for (column, (height, _)) in state.get_view().iter().enumerate() {
            assert!(*height >= 0, "heading {heading}, column {column}");
        }
    }
}

#[test]
fn a_wall_at_no_distance_fills_the_height_range() {
    // On the grid line under a wall row, facing it: the wall is at no
    // distance, and the height saturates.
    let mut state = corridor(FRAC_PI_2);
    state.player_y = ONE;
    let view = state.get_view();
    assert_eq!(view[80], (i32::MAX, false));
}
