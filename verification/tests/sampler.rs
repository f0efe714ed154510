use metric_sampler::config::{Tag, ValueMapping};
use metric_sampler::framer::Framer;
use metric_sampler::json_ptr::JsonPtr;
use metric_sampler::point::build_point;
use metric_sampler::sampler::{divisor, extract_row, SampleError, Sampler};
use serde_json::Value;
use std::collections::VecDeque;

fn sampler_doc(text: &str) -> Value {
    serde_json::from_str(text).unwrap()
}

fn mapping(name: &str, path: &[&str]) -> ValueMapping {
    ValueMapping { name: String::from(name), path: JsonPtr::new(path) }
}

fn floats(row: Vec<u64>) -> Vec<f64> {
    row.into_iter().map(f64::from_bits).collect()
}

#[test]
fn a_row_holds_one_reading_per_mapping_in_order() {
    let doc = sampler_doc(r#"{"temp":{"cpu":45.5,"gpu":60},"fan":1200}"#);
    let mappings = vec![
        mapping("fan", &["fan"]),
        mapping("cpu", &["temp", "cpu"]),
        mapping("gpu", &["temp", "gpu"]),
        mapping("cpu_again", &["temp", "cpu"]),
    ];
    let row = extract_row(&doc, &mappings).unwrap();
    assert_eq!(floats(row), vec![1200.0, 45.5, 60.0, 45.5]);
}

#[test]
fn no_mappings_give_an_empty_row() {
    let doc = sampler_doc(r#"{"a":1}"#);
    assert_eq!(extract_row(&doc, &[]), Ok(vec![]));
}

#[test]
fn the_first_mapping_without_a_number_is_named() {
    let doc = sampler_doc(r#"{"a":1,"b":"text","c":3}"#);
    let mappings =
        vec![mapping("a", &["a"]), mapping("b", &["b"]), mapping("c", &["c"]), mapping("d", &["d"])];
    assert_eq!(extract_row(&doc, &mappings), Err(SampleError::Extraction { mapping: 1 }));

    let mappings = vec![mapping("a", &["a"]), mapping("c", &["c"]), mapping("d", &["d"])];
    assert_eq!(extract_row(&doc, &mappings), Err(SampleError::Extraction { mapping: 2 }));
}

#[test]
fn a_sampler_counts_down_its_documents() {
    let mappings = vec![mapping("a", &["a"])];
    let mut sampler = Sampler::new(2);
    assert!(sampler.wants_document());
    assert_eq!(sampler.remaining(), 2);

    assert_eq!(floats(sampler.accept(&sampler_doc(r#"{"a":1}"#), &mappings).unwrap()), vec![1.0]);
    assert!(sampler.wants_document());
    assert_eq!(sampler.remaining(), 1);

    assert_eq!(floats(sampler.accept(&sampler_doc(r#"{"a":2}"#), &mappings).unwrap()), vec![2.0]);
    assert!(!sampler.wants_document());
    assert_eq!(sampler.remaining(), 0);
}

#[test]
fn a_full_sampler_leaves_a_document_alone() {
    let mappings = vec![mapping("a", &["a"])];
    let mut sampler = Sampler::new(1);
    assert!(sampler.accept(&sampler_doc(r#"{"a":1}"#), &mappings).is_ok());
    assert_eq!(sampler.accept(&sampler_doc(r#"{"a":2}"#), &mappings), Err(SampleError::NotWanted));
    assert_eq!(sampler.accept(&sampler_doc(r#"{"x":2}"#), &mappings), Err(SampleError::NotWanted));
    assert_eq!(sampler.remaining(), 0);
}

#[test]
fn a_sampler_for_no_documents_wants_none() {
    let mut sampler = Sampler::new(0);
    assert!(!sampler.wants_document());
    assert_eq!(sampler.remaining(), 0);
    assert_eq!(sampler.accept(&sampler_doc("1"), &[]), Err(SampleError::NotWanted));
}

#[test]
fn a_failed_extraction_surfaces_and_does_not_count() {
    let mappings = vec![mapping("a", &["a"]), mapping("b", &["b"])];
    let mut sampler = Sampler::new(3);
    assert!(sampler.accept(&sampler_doc(r#"{"a":1,"b":2}"#), &mappings).is_ok());
    assert_eq!(
        sampler.accept(&sampler_doc(r#"{"a":1}"#), &mappings),
        Err(SampleError::Extraction { mapping: 1 })
    );
    assert_eq!(
        sampler.accept(&sampler_doc(r#"{"a":null,"b":2}"#), &mappings),
        Err(SampleError::Extraction { mapping: 0 })
    );
    assert_eq!(sampler.remaining(), 2);
    assert!(sampler.wants_document());
}

#[test]
fn a_sampler_for_three_takes_three_and_leaves_the_fourth() {
    let mappings = vec![mapping("a", &["a"])];
    let mut queue: VecDeque<Value> = VecDeque::new();
    for text in [r#"{"a":1}"#, r#"{"a":2}"#, r#"{"a":3}"#, r#"{"a":4}"#] {
        queue.push_back(sampler_doc(text));
    }

    let mut sampler = Sampler::new(3);
    let mut rows: Vec<Vec<f64>> = Vec::new();
    while sampler.wants_document() {
        let doc = queue.pop_front().unwrap();
        rows.push(floats(sampler.accept(&doc, &mappings).unwrap()));
    }

    assert_eq!(rows, vec![vec![1.0], vec![2.0], vec![3.0]]);
    assert_eq!(queue.len(), 1);
    assert_eq!(queue[0], sampler_doc(r#"{"a":4}"#));
}

#[test]
fn a_stream_of_three_documents_gives_a_point_with_their_mean() {
    let stream = br#"{"a":{"b":1}}{"a":{"b":3}}{"a":{"b":5}}"#;
    let chunks: Vec<Vec<u8>> = stream.iter().map(|byte| vec![*byte]).collect();
    let mappings = vec![mapping("m1", &["a", "b"])];
    let tags = vec![Tag { name: String::from("host"), value: String::from("box") }];

    let mut framer = Framer::new();
    let mut queue: VecDeque<Value> = framer.feed(&chunks).into();
    assert_eq!(queue.len(), 3);

    let mut sampler = Sampler::new(3);
    let mut sums = vec![0.0f64; mappings.len()];
    let mut count = 0usize;
    while sampler.wants_document() {
        let doc = queue.pop_front().unwrap();
        let row = sampler.accept(&doc, &mappings).unwrap();
        for (sum, bits) in sums.iter_mut().zip(row) {
            *sum += f64::from_bits(bits);
        }
        count += 1;
    }
    assert!(queue.is_empty());
    let averages: Vec<u64> = sums.iter().map(|sum| (sum / divisor(count) as f64).to_bits()).collect();

    let point = build_point("source", &tags, &mappings, &averages).unwrap();
    assert_eq!(point.measurement(), "source");
    assert_eq!(point.fields().len(), 1);
    assert_eq!(point.fields()[0].name, "m1");
    assert_eq!(f64::from_bits(point.fields()[0].bits), 3.0);
    assert_eq!(point.tags().len(), 1);
    assert_eq!(point.tags()[0].name, "host");
    assert_eq!(point.tags()[0].value, "box");
}

#[test]
fn a_sum_is_divided_by_the_number_of_readings_but_at_least_by_one() {
    assert_eq!(divisor(0), 1);
    assert_eq!(divisor(1), 1);
    assert_eq!(divisor(3), 3);
    assert_eq!(divisor(usize::MAX), usize::MAX);

    assert_eq!(0.0 / divisor(0) as f64, 0.0);
    assert_eq!((2.0 + 4.0 + 6.0) / divisor(3) as f64, 4.0);
}
