use piechart::{Chart, Data};

fn dummy_data() -> Data {
    Data { label: "".to_string(), value: 1, color: None, fill: ' ' }
}

#[test]
#[should_panic]
fn empty_data() {
    let data: Vec<Data> = vec![];
    Chart::new().render(&data).unwrap();
}

#[test]
fn data_len() {
    let chart = Chart::new();
    for len in 1..=16 {
        println!("{}", len);
        let data = vec![dummy_data(); len];
        chart.render(&data).unwrap();
    }
}

#[test]
fn very_much_data() {
    let chart = Chart::new();
    let data = vec![dummy_data(); 2048];
    chart.render(&data).unwrap();
}

#[test]
fn config_combinations() {
    let mut chart = Chart::new();
    for radius in 0..=5 {
        chart.radius(radius);
        for aspect_ratio in 1..=5 {
            chart.aspect_ratio(aspect_ratio).unwrap();
            for legend in &[true, false] {
                chart.legend(*legend);
                for data_len in 1..=5 {
                    let data = vec![dummy_data(); data_len];
                    chart.render(&data).unwrap();
                }
            }
        }
    }
}
