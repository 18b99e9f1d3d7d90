use matahatan::{
    input_step, parse_input_line, render_input_line, render_maze_json, render_output_line, Config,
    Input, MazeGrid, MazeKind, MazeSpec, Output, SharedState, MAZE_X, MAZE_Y, SCALE,
};

fn parse(text: &str) -> Option<Input> {
    parse_input_line(&text.as_bytes().to_vec())
}

/// Scenario: the out-of-range input line clamps to full deflections.
#[test]
fn scenario_out_of_range_line_clamps() {
    let input = parse(r#"{"steering":2.5,"acceleration":-3.0}"#).expect("line should parse");
    assert_eq!(input.steering, 2_500_000);
    assert_eq!(input.acceleration, -3_000_000);
    let config = Config {
        gui: false,
        stdio: true,
        stick: false,
        framerate: 0,
        seed: None,
        kind: MazeKind::Backtracking,
    };
    let spec = MazeSpec::random();
    let mut state = SharedState::new(&config, spec).simulation;
    input_step(&mut state, Some(input));
    assert_eq!(state.steering, SCALE);  // clamped to 1.0
    assert_eq!(state.acceleration, -SCALE);  // clamped to -1.0
}

#[test]
fn parse_accepts_whitespace_and_key_order() {
    let input = parse(" { \"acceleration\" : -0.25 , \"steering\" : 0.5 } \n").unwrap();
    assert_eq!(input.steering, 500_000);
    assert_eq!(input.acceleration, -250_000);
}

#[test]
fn parse_integer_and_long_fractions() {
    let input = parse(r#"{"steering":1,"acceleration":0.1234567890}"#).unwrap();
    assert_eq!(input.steering, SCALE);
    // Fraction digits beyond the sixth are ignored.
    assert_eq!(input.acceleration, 123_456);
}

#[test]
fn parse_rejects_malformed_lines() {
    assert!(parse("").is_none());
    assert!(parse("steer right, please").is_none());
    assert!(parse("{}").is_none());
    assert!(parse(r#"{"steering":0.5}"#).is_none());
    assert!(parse(r#"{"steering":0.5,"steering":0.5}"#).is_none());
    assert!(parse(r#"{"steering":0.5,"acceleration":}"#).is_none());
    assert!(parse(r#"{"steering":.5,"acceleration":1.0}"#).is_none());
    assert!(parse(r#"{"steering":0.5,"acceleration":1.0} extra"#).is_none());
    assert!(parse(r#"{"steering":0.5,"acceleration":1.0,}"#).is_none());
    assert!(parse(r#"{"steering":"0.5","acceleration":1.0}"#).is_none());
    assert!(parse(r#"{"steering":1e,"acceleration":1.0}"#).is_none());
    // A differently-cased key is a different (unknown) member, so the
    // steering field is missing.
    assert!(parse(r#"{"Steering":0.5,"acceleration":1.0}"#).is_none());
}

#[test]
fn parse_accepts_exponent_notation() {
    let input = parse(r#"{"steering":1e0,"acceleration":0}"#).unwrap();
    assert_eq!(input.steering, SCALE);
    assert_eq!(input.acceleration, 0);
    let input = parse(r#"{"steering":2.5e2,"acceleration":-1E2}"#).unwrap();
    assert_eq!(input.steering, 250 * SCALE);
    assert_eq!(input.acceleration, -100 * SCALE);
    let input = parse(r#"{"steering":1e-3,"acceleration":25e-1}"#).unwrap();
    assert_eq!(input.steering, 1_000);  // 0.001
    assert_eq!(input.acceleration, 2_500_000);  // 2.5
    let input = parse(r#"{"steering":1e+2,"acceleration":-0.5e1}"#).unwrap();
    assert_eq!(input.steering, 100 * SCALE);
    assert_eq!(input.acceleration, -5_000_000);
}

#[test]
fn parse_saturates_huge_magnitudes() {
    // Values past every representable magnitude saturate; they are clamped
    // to one unit downstream anyway.
    let sat: i64 = 1_000_000_000_000_000_000;
    let input = parse(r#"{"steering":99999999999999999999,"acceleration":1e999}"#).unwrap();
    assert_eq!(input.steering, sat);
    assert_eq!(input.acceleration, sat);
    let input = parse(r#"{"steering":-1e999,"acceleration":1e-999}"#).unwrap();
    assert_eq!(input.steering, -sat);
    assert_eq!(input.acceleration, 0);
}

#[test]
fn parse_skips_unknown_members() {
    let line = r#"{"note":"ignore me","steering":2.5,"acceleration":-3.0}"#;
    let input = parse(line).unwrap();
    assert_eq!(input.steering, 2_500_000);
    assert_eq!(input.acceleration, -3_000_000);
    let line = r#"{"a":[1,{"b":null},[]],"steering":1,"tail":true,"acceleration":0,"z":false}"#;
    let input = parse(line).unwrap();
    assert_eq!(input.steering, SCALE);
    assert_eq!(input.acceleration, 0);
    // Escaped quotes inside an unknown member's key or value.
    let line = "{\"quo\\\"te\":\"a\\\"b\",\"steering\":0,\"acceleration\":0}";
    assert!(parse(line).is_some());
    // Unknown members may repeat.
    let line = r#"{"x":1,"x":2,"steering":0,"acceleration":0}"#;
    assert!(parse(line).is_some());
}

#[test]
fn parse_bounds_nesting_depth() {
    // An unknown member may nest, but only as deep as a JSON parser's
    // recursion limit; a pathologically deep line is rejected whole.
    let mut shallow = String::from(r#"{"a":"#);
    shallow.push_str(&"[".repeat(20));
    shallow.push_str(&"]".repeat(20));
    shallow.push_str(r#","steering":0,"acceleration":0}"#);
    assert!(parse(&shallow).is_some());
    let mut deep = String::from(r#"{"a":"#);
    deep.push_str(&"[".repeat(500));
    deep.push_str(&"]".repeat(500));
    deep.push_str(r#","steering":0,"acceleration":0}"#);
    assert!(parse(&deep).is_none());
}

#[test]
fn roundtrip_recovers_values() {
    let cases: [(i64, i64); 6] = [
        (0, 0),
        (SCALE, -SCALE),
        (123_456, -654_321),
        (-1, 1),
        (999_999, -999_999),
        (250_000, 750_000),
    ];
    for (steering, acceleration) in cases {
        let line = render_input_line(&Input { steering, acceleration });
        let back = parse_input_line(&line).expect("rendered line should parse");
        assert_eq!(back.steering, steering);
        assert_eq!(back.acceleration, acceleration);
    }
}

#[test]
fn render_input_line_exact() {
    let line = render_input_line(&Input { steering: 2_500_000, acceleration: -3_000_000 });
    assert_eq!(
        String::from_utf8(line).unwrap(),
        r#"{"steering":2.500000,"acceleration":-3.000000}"#
    );
}

#[test]
fn render_output_line_exact() {
    let line = render_output_line(&Output {
        x: 500_000,
        y: 12_345_678,
        angle: -1,
        collision: false,
    });
    assert_eq!(
        String::from_utf8(line).unwrap(),
        r#"{"x":0.500000,"y":12.345678,"angle":-0.000001,"collision":false}"#
    );
    let line = render_output_line(&Output { x: 0, y: 0, angle: 3_141_593, collision: true });
    assert_eq!(
        String::from_utf8(line).unwrap(),
        r#"{"x":0.000000,"y":0.000000,"angle":3.141593,"collision":true}"#
    );
}

fn open_grid() -> MazeGrid {
    MazeGrid { passages: vec![true; 4 * MAZE_X * MAZE_Y], goal_x: 0, goal_y: 0 }
}

#[test]
fn maze_json_shape() {
    let grid = open_grid();
    let line = String::from_utf8(render_maze_json(&grid)).unwrap();
    assert!(line.starts_with(r#"{"x":25,"y":25,"passages":[["#));
    assert!(line.ends_with("]]]}"));
    // Every cell of the fully open grid lists all four directions, in the
    // order north, west, south, east.
    assert_eq!(line.matches(r#"["n","w","s","e"]"#).count(), MAZE_X * MAZE_Y);
}

#[test]
fn maze_json_closed_cells_are_empty_lists() {
    let grid = MazeGrid { passages: vec![false; 4 * MAZE_X * MAZE_Y], goal_x: 3, goal_y: 4 };
    let line = String::from_utf8(render_maze_json(&grid)).unwrap();
    assert_eq!(line.matches("[]").count(), MAZE_X * MAZE_Y);
}

#[test]
fn maze_json_deterministic() {
    let grid = open_grid();
    assert_eq!(render_maze_json(&grid), render_maze_json(&grid));
}
