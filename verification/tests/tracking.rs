use sc_position_helper::Coordinate;
use sc_position_helper::Evaluation;
use sc_position_helper::Tracker;
use sc_position_helper::Trend;
use sc_position_helper::classify;

fn field_value(f: &Option<String>) -> f64 {
    match f {
        Some(t) => t.parse::<f64>().unwrap(),
        None => 0.0,
    }
}

fn distance_from_origin(c: &Coordinate) -> f64 {
    let x = field_value(&c.x);
    let y = field_value(&c.y);
    let z = field_value(&c.z);
    (x * x + y * y + z * z).sqrt()
}

#[test]
fn test_classify_closer_approaches() {
    assert_eq!(classify(true), Trend::Approaching);
}

#[test]
fn test_classify_not_closer_recedes() {
    assert_eq!(classify(false), Trend::Receding);
}

#[test]
fn test_empty_first_sample_is_unchanged() {
    let mut tracker = Tracker::new();
    assert!(matches!(tracker.observe(String::new()), Evaluation::Unchanged));
}

#[test]
fn test_repeated_sample_is_unchanged() {
    let mut tracker = Tracker::new();
    let text = "Coordinates: x:1.0 y:2.0 z:3.0";
    assert!(matches!(tracker.observe(text.to_string()), Evaluation::Found(_)));
    assert!(matches!(tracker.observe(text.to_string()), Evaluation::Unchanged));
}

#[test]
fn test_noise_is_not_an_announcement() {
    let mut tracker = Tracker::new();
    assert!(matches!(
        tracker.observe("some clipboard noise".to_string()),
        Evaluation::NotAnAnnouncement
    ));
}

#[test]
fn test_overfull_announcement_is_not_found() {
    let mut tracker = Tracker::new();
    assert!(matches!(
        tracker.observe("Coordinates: x:1.0 y:2.0 z:3.0 extra 4.0".to_string()),
        Evaluation::NotFound
    ));
}

#[test]
fn test_found_carries_the_tokens() {
    let mut tracker = Tracker::new();
    match tracker.observe("Coordinates: x:1.5 y:-2.5 z:3.5".to_string()) {
        Evaluation::Found(c) => {
            assert_eq!(c.x.as_deref(), Some("1.5"));
            assert_eq!(c.y.as_deref(), Some("-2.5"));
            assert_eq!(c.z.as_deref(), Some("3.5"));
        }
        _ => panic!("expected a coordinate"),
    }
}

fn run_trends(samples: &[&str]) -> Vec<Trend> {
    let mut tracker = Tracker::new();
    let mut last_distance: f64 = 0.0;
    let mut trends = Vec::new();
    for text in samples {
        match tracker.observe(text.to_string()) {
            Evaluation::Found(c) => {
                let distance = distance_from_origin(&c);
                trends.push(classify(distance < last_distance));
                last_distance = distance;
            }
            _ => panic!("expected every sample to carry a coordinate"),
        }
    }
    trends
}

#[test]
fn test_strictly_decreasing_distances_approach_after_first() {
    let trends = run_trends(&[
        "Coordinates: x:3.0 y:0.0 z:0.0",
        "Coordinates: x:2.0 y:0.0 z:0.0",
        "Coordinates: x:1.0 y:0.0 z:0.0",
    ]);
    assert_eq!(trends, vec![Trend::Receding, Trend::Approaching, Trend::Approaching]);
}

#[test]
fn test_strictly_increasing_distances_always_recede() {
    let trends = run_trends(&[
        "Coordinates: x:1.0 y:0.0 z:0.0",
        "Coordinates: x:2.0 y:0.0 z:0.0",
        "Coordinates: x:3.0 y:0.0 z:0.0",
    ]);
    assert_eq!(trends, vec![Trend::Receding, Trend::Receding, Trend::Receding]);
}

#[test]
fn test_first_sample_at_zero_distance_still_recedes() {
    let trends = run_trends(&["Coordinates: x:0.0 y:0.0 z:0.0"]);
    assert_eq!(trends, vec![Trend::Receding]);
}

#[test]
fn test_equal_distance_recedes() {
    let trends = run_trends(&[
        "Coordinates: x:2.0 y:0.0 z:0.0",
        "Coordinates: x:0.0 y:2.0 z:0.0",
    ]);
    assert_eq!(trends, vec![Trend::Receding, Trend::Receding]);
}
