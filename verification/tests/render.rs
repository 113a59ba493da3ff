use auctmah::render::{bid_amount_label, bid_count_label, card_origin, description_line,
    grid_horizontal_y, grid_vertical_x, leader_label, progress_fill_width, progress_phase,
    status_color, status_label, truncate_prefix};

#[test]
fn card_origin_walks_three_columns() {
    assert_eq!(card_origin(0), (50, 50));
    assert_eq!(card_origin(1), (500, 50));
    assert_eq!(card_origin(2), (950, 50));
    assert_eq!(card_origin(3), (50, 400));
    assert_eq!(card_origin(4), (500, 400));
    assert_eq!(card_origin(7), (500, 750));
}

#[test]
fn grid_lines_follow_the_pitch() {
    assert_eq!(grid_vertical_x(0), 50);
    assert_eq!(grid_vertical_x(3), 1400);
    assert_eq!(grid_horizontal_y(0), 50);
    assert_eq!(grid_horizontal_y(2), 750);
}

#[test]
fn leader_name_is_cut_to_fifteen() {
    let long = b"someone_with_a_very_long_name".to_vec();
    let label = leader_label(&long);
    assert_eq!(label, b"Leader: someone_with_a_".to_vec());
    assert_eq!(label.len(), 8 + 15);
}

#[test]
fn short_leader_name_is_kept_whole() {
    let label = leader_label(&b"eve".to_vec());
    assert_eq!(label, b"Leader: eve".to_vec());
}

#[test]
fn description_is_cut_to_forty_as_a_prefix() {
    let long: Vec<u8> = (0..50).map(|i| b'a' + (i % 26) as u8).collect();
    let line = description_line(&long);
    assert_eq!(line.len(), 40);
    assert_eq!(line[..], long[..40]);
    let short = b"short text".to_vec();
    assert_eq!(description_line(&short), short);
}

#[test]
fn truncate_prefix_is_exact_on_the_boundary() {
    let t = b"0123456789".to_vec();
    assert_eq!(truncate_prefix(&t, 10), t);
    assert_eq!(truncate_prefix(&t, 11), t);
    assert_eq!(truncate_prefix(&t, 9), b"012345678".to_vec());
    assert_eq!(truncate_prefix(&t, 0), b"".to_vec());
}

#[test]
fn status_maps_to_its_color() {
    assert_eq!(status_color(&b"active".to_vec()), b"#00d4ff".to_vec());
    assert_eq!(status_color(&b"ended".to_vec()), b"#ff6b6b".to_vec());
    assert_eq!(status_color(&b"paused".to_vec()), b"#8b5cf6".to_vec());
}

#[test]
fn status_badge_is_upper_case() {
    assert_eq!(status_label(&b"active".to_vec()), b"ACTIVE".to_vec());
    assert_eq!(status_label(&b"Ended!".to_vec()), b"ENDED!".to_vec());
}

#[test]
fn amount_renders_as_whole_dollars() {
    assert_eq!(bid_amount_label(0), b"$0".to_vec());
    assert_eq!(bid_amount_label(1234), b"$1234".to_vec());
    assert_eq!(bid_amount_label(u64::MAX), b"$18446744073709551615".to_vec());
}

#[test]
fn bid_count_line_names_the_count() {
    assert_eq!(bid_count_label(0), b"Bids: 0".to_vec());
    assert_eq!(bid_count_label(42), b"Bids: 42".to_vec());
}

#[test]
fn progress_phase_is_the_time_modulo_the_period() {
    assert_eq!(progress_phase(0), 0);
    assert_eq!(progress_phase(12345), 2345);
    assert_eq!(progress_phase(9999), 9999);
    assert_eq!(progress_phase(10000), 0);
}

#[test]
fn progress_is_periodic_and_continuous() {
    for t in [0u64, 17, 9998, 123456] {
        assert_eq!(progress_phase(t), progress_phase(t + 10000));
    }
    assert_eq!(progress_phase(9998) + 1, progress_phase(9999));
    assert_eq!(progress_phase(10000), 0);
}

#[test]
fn truncation_never_splits_a_character() {
    let name = "abcdefghijklmn\u{e9}xyz".as_bytes().to_vec();
    let label = leader_label(&name);
    assert_eq!(label, b"Leader: abcdefghijklmn".to_vec());
    let mut desc = "a".repeat(39);
    desc.push('\u{e9}');
    desc.push_str("tail");
    let line = description_line(&desc.into_bytes());
    assert_eq!(line.len(), 39);
    assert_eq!(line, "a".repeat(39).into_bytes());
}

#[test]
fn truncation_on_a_boundary_keeps_the_character() {
    let mut name = "a".repeat(13);
    name.push('\u{e9}');
    let label = leader_label(&name.clone().into_bytes());
    let mut expected = b"Leader: ".to_vec();
    expected.extend_from_slice(name.as_bytes());
    assert_eq!(label, expected);
}

#[test]
fn progress_is_linear_within_a_period() {
    assert_eq!(progress_phase(5300) - progress_phase(5100), 200);
    assert_eq!(progress_phase(15300) - progress_phase(15100), 200);
    assert_eq!(progress_phase(9999) - progress_phase(9000), 999);
}

#[test]
fn progress_fill_width_scales_the_bar() {
    assert_eq!(progress_fill_width(370, 0), 0);
    assert_eq!(progress_fill_width(370, 5000), 185);
    assert_eq!(progress_fill_width(370, 9999), 369);
    assert_eq!(progress_fill_width(370, 10000), 0);
}
