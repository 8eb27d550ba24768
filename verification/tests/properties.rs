use piechart::{Chart, ChartError, Color, Data};
use piechart::geometry::calculate_width;
use piechart::partition::{lookup, partition};

fn point(label: &str, value: u32, color: Option<Color>, fill: char) -> Data {
    Data { label: label.to_string(), value, color, fill }
}

#[test]
fn row_count_matches_radius() {
    let mut chart = Chart::new();
    for radius in 0..=20 {
        chart.radius(radius);
        for aspect_ratio in 1..=10 {
            chart.aspect_ratio(aspect_ratio).unwrap();
            for legend in &[true, false] {
                chart.legend(*legend);
                for data_len in 1..=10 {
                    let data: Vec<Data> =
                        (0..data_len).map(|i| point("x", i + 1, None, '.')).collect();
                    let rows = chart.render(&data).unwrap();
                    assert_eq!(rows.len(), 2 * radius as usize + 1);
                }
            }
        }
    }
}

#[test]
fn single_point_small_circle() {
    let mut chart = Chart::new();
    chart.radius(2);
    chart.aspect_ratio(1).unwrap();
    chart.legend(false);
    let data = vec![point("", 1, None, '*')];
    let rows = chart.render(&data).unwrap();
    assert_eq!(rows, vec!["  *", "*****", "*****", "*****", "  *"]);
}

#[test]
fn equal_pair_partition_is_two_half_turns() {
    let values = vec![1u32, 1u32];
    let part = partition(2, &values);
    assert_eq!(part, vec![180_000, 360_000]);
    assert_eq!(lookup(&part, 0), 0);
    assert_eq!(lookup(&part, 180_000), 0);
    assert_eq!(lookup(&part, 180_001), 1);
    assert_eq!(lookup(&part, 359_999), 1);
}

#[test]
fn equal_pair_fills_left_and_right_halves() {
    let mut chart = Chart::new();
    chart.radius(1);
    chart.aspect_ratio(1).unwrap();
    let data = vec![point("first", 1, None, 'a'), point("second", 1, None, 'b')];
    let rows = chart.render(&data).unwrap();
    assert_eq!(rows, vec![" a", "baa", " a"]);
}

#[test]
fn partition_is_monotone_and_closes() {
    let values = vec![1u32, 2, 3];
    let part = partition(6, &values);
    assert_eq!(part, vec![60_000, 180_000, 360_000]);

    let values = vec![5u32, 1, 9, 2];
    let total: u32 = values.iter().sum();
    let part = partition(total as u128, &values);
    for w in part.windows(2) {
        assert!(w[0] <= w[1]);
    }
    assert_eq!(*part.last().unwrap(), 360_000);
}

#[test]
fn zero_aspect_ratio_is_rejected() {
    let mut chart = Chart::new();
    assert_eq!(chart.aspect_ratio(0), Err(ChartError::InvalidAspectRatio));
    // The configuration is untouched: the chart still renders with the
    // default radius of 8.
    let rows = chart.render(&vec![point("", 1, None, '*')]).unwrap();
    assert_eq!(rows.len(), 17);
}

#[test]
fn empty_data_is_rejected() {
    let data: Vec<Data> = vec![];
    assert_eq!(Chart::new().render(&data), Err(ChartError::EmptyData));
}

#[test]
fn zero_total_is_rejected() {
    let data = vec![point("a", 0, None, '*'), point("b", 0, None, '*')];
    assert_eq!(Chart::new().render(&data), Err(ChartError::ZeroTotal));
}

#[test]
fn legend_entries_anchor_around_center() {
    let mut chart = Chart::new();
    chart.radius(1);
    chart.aspect_ratio(1).unwrap();
    chart.legend(true);
    let data = vec![point("a", 1, None, '*'), point("b", 1, None, '*')];
    let rows = chart.render(&data).unwrap();
    assert_eq!(rows, vec![" *   * a 50.00%", "***  ", " *   * b 50.00%"]);
}

#[test]
fn single_legend_entry_anchors_at_center() {
    let mut chart = Chart::new();
    chart.radius(1);
    chart.aspect_ratio(1).unwrap();
    chart.legend(true);
    let data = vec![point("x", 1, None, '*')];
    let rows = chart.render(&data).unwrap();
    assert_eq!(rows, vec![" *   ", "***  * x 100.00%", " *   "]);
}

#[test]
fn legend_percentages_are_rounded_to_hundredths() {
    let mut chart = Chart::new();
    chart.radius(1);
    chart.aspect_ratio(1).unwrap();
    chart.legend(true);
    let data = vec![point("a", 1, None, '*'), point("b", 2, None, '*')];
    let rows = chart.render(&data).unwrap();
    // 1/3 rounds to 33.33%, 2/3 to 66.67%.
    assert!(rows[0].ends_with("* a 33.33%"));
    assert!(rows[2].ends_with("* b 66.67%"));
}

#[test]
fn colored_fill_is_wrapped_in_escape_codes() {
    let mut chart = Chart::new();
    chart.radius(0);
    chart.aspect_ratio(1).unwrap();
    let data = vec![point("", 1, Some(Color::Red), '*')];
    let rows = chart.render(&data).unwrap();
    assert_eq!(rows, vec!["\u{1b}[31m*\u{1b}[0m"]);
}

#[test]
fn width_is_symmetric_and_exact() {
    for y in 0..=3i64 {
        assert_eq!(calculate_width(3, 2, y), calculate_width(3, 2, -y));
    }
    // radius 3, aspect 2: widths are round(sqrt(2 * (9 - y*y))).
    assert_eq!(calculate_width(3, 2, 0), 4);
    assert_eq!(calculate_width(3, 2, 1), 4);
    assert_eq!(calculate_width(3, 2, 2), 3);
    assert_eq!(calculate_width(3, 2, 3), 0);
}
