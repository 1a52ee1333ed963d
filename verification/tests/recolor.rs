use glacier::colors::{candidate_colors, resolve_selection, Color, RecolorError, Scheme};
use glacier::engine::{distance, find_nearest, recolor, try_recolor, Grid};

fn color(r: u8, g: u8, b: u8) -> Color {
    Color { r, g, b }
}

fn frost_expected() -> Vec<Color> {
    vec![
        color(143, 188, 187),
        color(136, 192, 208),
        color(129, 161, 193),
        color(94, 129, 172),
    ]
}

fn polar_night_expected() -> Vec<Color> {
    vec![
        color(46, 52, 64),
        color(59, 66, 82),
        color(67, 76, 94),
        color(76, 86, 106),
    ]
}

fn snow_storm_expected() -> Vec<Color> {
    vec![color(216, 222, 233), color(229, 233, 240), color(236, 239, 244)]
}

fn aurora_expected() -> Vec<Color> {
    vec![
        color(191, 97, 106),
        color(208, 135, 112),
        color(235, 203, 139),
        color(163, 190, 140),
        color(180, 142, 173),
    ]
}

#[test]
fn resolves_each_recognized_name() {
    let frost = Scheme::from_str("frost").unwrap();
    assert!(matches!(frost, Scheme::Frost(_)));
    assert_eq!(frost.colors(), &frost_expected());

    let polar = Scheme::from_str("polar_night").unwrap();
    assert!(matches!(polar, Scheme::PolarNight(_)));
    assert_eq!(polar.colors(), &polar_night_expected());

    let snow = Scheme::from_str("snow_storm").unwrap();
    assert!(matches!(snow, Scheme::SnowStorm(_)));
    assert_eq!(snow.colors(), &snow_storm_expected());

    let aurora = Scheme::from_str("aurora").unwrap();
    assert!(matches!(aurora, Scheme::Aurora(_)));
    assert_eq!(aurora.colors(), &aurora_expected());
}

#[test]
fn rejects_unknown_scheme_name() {
    let r = Scheme::from_str("glacier");
    assert_eq!(
        r.unwrap_err(),
        RecolorError::UnknownScheme(String::from("glacier"))
    );
}

#[test]
fn rejects_case_mismatch_and_empty_name() {
    assert_eq!(
        Scheme::from_str("Frost").unwrap_err(),
        RecolorError::UnknownScheme(String::from("Frost"))
    );
    assert_eq!(
        Scheme::from_str("").unwrap_err(),
        RecolorError::UnknownScheme(String::from(""))
    );
}

#[test]
fn selection_concatenates_in_order_without_dedup() {
    let names = vec![String::from("frost"), String::from("aurora")];
    let cands = resolve_selection(&names).unwrap();
    assert_eq!(cands.len(), 9);
    let mut expected = frost_expected();
    expected.extend(aurora_expected());
    assert_eq!(cands, expected);
}

#[test]
fn selection_preserves_repeated_schemes() {
    let names = vec![String::from("snow_storm"), String::from("snow_storm")];
    let cands = resolve_selection(&names).unwrap();
    let mut expected = snow_storm_expected();
    expected.extend(snow_storm_expected());
    assert_eq!(cands, expected);
}

#[test]
fn selection_rejects_first_unrecognized_name() {
    let names = vec![String::from("frost"), String::from("mist")];
    let r = resolve_selection(&names);
    assert_eq!(r, Err(RecolorError::UnknownScheme(String::from("mist"))));
}

#[test]
fn candidate_colors_concatenates_scheme_lists() {
    let schemes = vec![
        Scheme::from_str("polar_night").unwrap(),
        Scheme::from_str("frost").unwrap(),
    ];
    let cands = candidate_colors(&schemes);
    let mut expected = polar_night_expected();
    expected.extend(frost_expected());
    assert_eq!(cands, expected);
}

#[test]
fn distance_is_sum_of_channel_differences() {
    assert_eq!(distance(color(0, 0, 0), color(100, 100, 100)), 300);
    assert_eq!(distance(color(255, 255, 255), color(100, 100, 100)), 465);
    assert_eq!(distance(color(10, 200, 30), color(10, 200, 30)), 0);
    assert_eq!(distance(color(0, 0, 0), color(255, 255, 255)), 765);
}

#[test]
fn black_wins_for_dark_gray() {
    let cands = vec![color(0, 0, 0), color(255, 255, 255)];
    let input = Grid::new(1, 1, vec![color(100, 100, 100)]).unwrap();
    let out = recolor(&input, &cands);
    assert_eq!(out.pixels, vec![color(0, 0, 0)]);
}

#[test]
fn tie_selects_first_candidate() {
    let cands = vec![color(10, 10, 10), color(20, 20, 20)];
    let input = Grid::new(1, 1, vec![color(15, 15, 15)]).unwrap();
    let out = recolor(&input, &cands);
    assert_eq!(out.pixels, vec![color(10, 10, 10)]);
}

#[test]
fn duplicate_candidates_tie_selects_lower_index() {
    let cands = vec![color(50, 50, 50), color(7, 7, 7), color(50, 50, 50)];
    let j = find_nearest(&cands, color(50, 50, 51));
    assert_eq!(j, 0);
}

#[test]
fn output_keeps_input_dimensions() {
    let cands = vec![color(0, 0, 0)];
    let pixels: Vec<Color> = (0..12u8).map(|i| color(i, 2 * i, 3 * i)).collect();
    let input = Grid::new(3, 4, pixels).unwrap();
    let out = recolor(&input, &cands);
    assert_eq!(out.width, 3);
    assert_eq!(out.height, 4);
    assert_eq!(out.pixels.len(), 12);
}

#[test]
fn repeated_runs_agree() {
    let names = vec![String::from("polar_night"), String::from("aurora")];
    let cands = resolve_selection(&names).unwrap();
    let pixels: Vec<Color> = (0..64u8).map(|i| color(4 * i, 255 - i, i / 2)).collect();
    let input = Grid::new(8, 8, pixels).unwrap();
    let first = recolor(&input, &cands);
    let second = recolor(&input, &cands);
    assert_eq!(first.pixels, second.pixels);
}

#[test]
fn every_output_pixel_is_a_candidate() {
    let names = vec![String::from("frost"), String::from("snow_storm")];
    let cands = resolve_selection(&names).unwrap();
    let pixels: Vec<Color> = (0..16u8).map(|i| color(16 * i, 100, 255 - 16 * i)).collect();
    let input = Grid::new(4, 4, pixels).unwrap();
    let out = recolor(&input, &cands);
    for px in &out.pixels {
        assert!(cands.contains(px));
    }
}

#[test]
fn exact_matches_stay_unchanged() {
    let cands = vec![color(1, 2, 3), color(9, 9, 9), color(1, 2, 3)];
    let pixels = vec![color(9, 9, 9), color(1, 2, 3), color(9, 9, 9), color(1, 2, 3)];
    let input = Grid::new(2, 2, pixels.clone()).unwrap();
    let out = recolor(&input, &cands);
    assert_eq!(out.pixels, pixels);
}

#[test]
fn empty_candidate_set_is_rejected() {
    let cands: Vec<Color> = vec![];
    let input = Grid::new(1, 1, vec![color(1, 1, 1)]).unwrap();
    let r = try_recolor(&input, &cands);
    assert_eq!(r.unwrap_err(), RecolorError::EmptyCandidateSet);
}

#[test]
fn try_recolor_succeeds_with_candidates() {
    let cands = vec![color(0, 0, 0), color(255, 255, 255)];
    let input = Grid::new(2, 1, vec![color(10, 10, 10), color(250, 250, 250)]).unwrap();
    let out = try_recolor(&input, &cands).unwrap();
    assert_eq!(out.pixels, vec![color(0, 0, 0), color(255, 255, 255)]);
}

#[test]
fn grid_rejects_mismatched_buffer() {
    assert!(Grid::new(2, 2, vec![color(0, 0, 0)]).is_none());
    assert!(Grid::new(0, 5, vec![]).is_some());
}
