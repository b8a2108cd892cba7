use daw::automation::{AutomationCurve, AutomationPoint, CurvePosition};

#[test]
fn automation_points_stay_ordered() {
    let mut curve = AutomationCurve::new(0.5f32);
    curve.add_point(AutomationPoint { sample: 100, value: 1.0 });
    curve.add_point(AutomationPoint { sample: 0, value: 0.0 });
    curve.add_point(AutomationPoint { sample: 50, value: 0.25 });
    curve.add_point(AutomationPoint { sample: 50, value: 0.75 });
    let samples: Vec<u64> = curve.points.iter().map(|p| p.sample).collect();
    assert_eq!(samples, vec![0, 50, 50, 100]);
    // A point at an existing position goes before the points already there.
    assert_eq!(curve.points[1].value, 0.75);
    assert_eq!(curve.points[2].value, 0.25);
}

#[test]
fn automation_locate_positions() {
    let empty = AutomationCurve::new(7i32);
    assert_eq!(empty.locate(10), CurvePosition::Default);

    let mut curve = AutomationCurve::new(0i32);
    curve.add_point(AutomationPoint { sample: 10, value: 1 });
    curve.add_point(AutomationPoint { sample: 20, value: 2 });
    curve.add_point(AutomationPoint { sample: 40, value: 4 });
    assert_eq!(curve.locate(0), CurvePosition::Point(0));
    assert_eq!(curve.locate(10), CurvePosition::Point(0));
    assert_eq!(curve.locate(15), CurvePosition::Between { before: 0, after: 1 });
    assert_eq!(curve.locate(20), CurvePosition::Between { before: 1, after: 2 });
    assert_eq!(curve.locate(39), CurvePosition::Between { before: 1, after: 2 });
    assert_eq!(curve.locate(40), CurvePosition::Point(2));
    assert_eq!(curve.locate(1000), CurvePosition::Point(2));
}

#[test]
fn automation_locate_interpolation_example() {
    // The curve of the engine's interpolation example: 0.0 at 0, 1.0 at 100.
    let mut curve = AutomationCurve::new(0.0f32);
    curve.add_point(AutomationPoint { sample: 0, value: 0.0 });
    curve.add_point(AutomationPoint { sample: 100, value: 1.0 });
    assert_eq!(curve.locate(0), CurvePosition::Point(0));
    assert_eq!(curve.locate(50), CurvePosition::Between { before: 0, after: 1 });
    assert_eq!(curve.locate(100), CurvePosition::Point(1));
    assert_eq!(curve.locate(200), CurvePosition::Point(1));
}

#[test]
fn automation_curve_passes_through_its_breakpoints() {
    let mut curve = AutomationCurve::new(0i32);
    for (sample, value) in [(100u64, 1), (0, 0), (50, 2), (50, 3), (75, 4)] {
        curve.add_point(AutomationPoint { sample, value });
    }
    for k in 0..curve.points.len() {
        let at = curve.points[k].sample;
        let governing = match curve.locate(at) {
            CurvePosition::Point(j) => j,
            CurvePosition::Between { before, .. } => before,
            CurvePosition::Default => panic!("a curve with breakpoints has no default position"),
        };
        assert_eq!(curve.points[governing].sample, at);
    }
    assert_eq!(curve.locate(50), CurvePosition::Between { before: 2, after: 3 });
}

#[test]
fn automation_add_point_on_unordered_points_inserts_it() {
    let mut curve = AutomationCurve::new(0i32);
    curve.points = vec![
        AutomationPoint { sample: 30, value: 3 },
        AutomationPoint { sample: 10, value: 1 },
        AutomationPoint { sample: 20, value: 2 },
    ];
    curve.add_point(AutomationPoint { sample: 15, value: 9 });
    assert_eq!(curve.points.len(), 4);
    assert_eq!(curve.points.iter().filter(|p| p.value == 9).count(), 1);
    let mut others: Vec<i32> = curve.points.iter().map(|p| p.value).filter(|&v| v != 9).collect();
    others.sort();
    assert_eq!(others, vec![1, 2, 3]);
}
