use sc_position_helper::Coordinate;
use sc_position_helper::ParsingError;
use sc_position_helper::is_valid;
use sc_position_helper::parse_coordinate;

fn some(s: &str) -> Option<String> {
    Some(s.to_string())
}

#[test]
fn test_is_coordinate() {
    let input = "Coordinates: x:0.0 y:0.0 z:0.0";
    assert_eq!(
        parse_coordinate(input).unwrap(),
        Coordinate { x: some("0.0"), y: some("0.0"), z: some("0.0") }
    );
}

#[test]
fn test_is_long_coordinate() {
    let input = "Coordinates: x:12792414426.801407 y:-74275565.552555 z:83180.938669";
    assert_eq!(
        parse_coordinate(input).unwrap(),
        Coordinate {
            x: some("12792414426.801407"),
            y: some("-74275565.552555"),
            z: some("83180.938669"),
        }
    );
}

#[test]
fn test_is_valid_missing_x_token() {
    assert_eq!(is_valid("Coordinates: x: y:0.0 z:-0.0"), false);
}

#[test]
fn test_is_valid_zero() {
    assert_eq!(is_valid("Coordinates: x:0.0 y:0.0 z:0.0"), true);
}

#[test]
fn test_is_valid_long() {
    assert_eq!(
        is_valid("Coordinates: x:12792414426.801407 y:-74275565.552555 z:83180.938669"),
        true
    );
}

#[test]
fn test_is_valid_needs_marker() {
    assert_eq!(is_valid("x:24.0 y:-10.0 z:54.0"), false);
    assert_eq!(is_valid("Coordinates: x:24.0 y:-10.0 z:54.0"), true);
}

#[test]
fn test_is_valid_empty() {
    assert_eq!(is_valid(""), false);
}

#[test]
fn test_is_valid_wrong_order() {
    assert_eq!(is_valid("Coordinates: y:1.0 x:2.0 z:3.0"), false);
}

#[test]
fn test_is_valid_embedded() {
    assert_eq!(is_valid("noise before Coordinates: x:1.5 y:2.5 z:3.5 noise after"), true);
}

#[test]
fn test_is_valid_negative_values() {
    assert_eq!(is_valid("Coordinates: x:-1.0 y:-2.0 z:-3.0"), true);
}

#[test]
fn test_is_valid_line_break_inside_token() {
    assert_eq!(is_valid("Coordinates: x:1\n1 y:2.2 z:3.3"), false);
}

#[test]
fn test_parse_empty_text_defaults_all_fields() {
    assert_eq!(parse_coordinate("").unwrap(), Coordinate { x: None, y: None, z: None });
}

#[test]
fn test_parse_single_token_defaults_rest() {
    assert_eq!(
        parse_coordinate("only 12.5 here").unwrap(),
        Coordinate { x: some("12.5"), y: None, z: None }
    );
}

#[test]
fn test_parse_two_tokens_defaults_z() {
    assert_eq!(
        parse_coordinate("1.0 then 2.0").unwrap(),
        Coordinate { x: some("1.0"), y: some("2.0"), z: None }
    );
}

#[test]
fn test_parse_four_tokens_is_an_error() {
    assert_eq!(
        parse_coordinate("Coordinates: x:1.0 y:2.0 z:3.0 extra 4.0"),
        Err(ParsingError)
    );
}

#[test]
fn test_parse_takes_tokens_by_position_not_by_label() {
    assert_eq!(
        parse_coordinate("z:9.9 x:1.1").unwrap(),
        Coordinate { x: some("9.9"), y: some("1.1"), z: None }
    );
}

#[test]
fn test_parse_token_with_free_character() {
    assert_eq!(
        parse_coordinate("1-2x34").unwrap(),
        Coordinate { x: some("1-2x34"), y: None, z: None }
    );
}

#[test]
fn test_parse_bare_digit_run_scans_as_one_token() {
    assert_eq!(
        parse_coordinate("12345").unwrap(),
        Coordinate { x: some("12345"), y: None, z: None }
    );
}

#[test]
fn test_revalidating_is_idempotent() {
    let input = "Coordinates: x:0.1 y:0.2 z:0.3";
    assert_eq!(is_valid(input), is_valid(input));
    let noise = "no coordinates at all";
    assert_eq!(is_valid(noise), is_valid(noise));
}

#[test]
fn test_reparsing_is_idempotent() {
    let input = "Coordinates: x:0.1 y:0.2 z:0.3";
    assert_eq!(parse_coordinate(input), parse_coordinate(input));
    let overfull = "1.0 2.0 3.0 4.0";
    assert_eq!(parse_coordinate(overfull), parse_coordinate(overfull));
}
