use metric_sampler::config::{Tag, ValueMapping};
use metric_sampler::json_ptr::JsonPtr;
use metric_sampler::point::build_point;

fn point_mapping(name: &str) -> ValueMapping {
    ValueMapping { name: String::from(name), path: JsonPtr::new(&[name]) }
}

fn point_tag(name: &str, value: &str) -> Tag {
    Tag { name: String::from(name), value: String::from(value) }
}

#[test]
fn a_point_has_a_field_for_every_mapping() {
    let tags = vec![point_tag("server", "proxmox"), point_tag("rack", "2")];
    let mappings = vec![point_mapping("cpu"), point_mapping("gpu"), point_mapping("fan")];
    let averages = vec![45.5f64.to_bits(), 60.0f64.to_bits(), 0.0f64.to_bits()];

    let point = build_point("sensors", &tags, &mappings, &averages).unwrap();

    assert_eq!(point.measurement(), "sensors");
    let got_tags: Vec<(&str, &str)> =
        point.tags().iter().map(|tag| (tag.name.as_str(), tag.value.as_str())).collect();
    assert_eq!(got_tags, vec![("server", "proxmox"), ("rack", "2")]);
    let got_fields: Vec<(&str, f64)> =
        point.fields().iter().map(|field| (field.name.as_str(), f64::from_bits(field.bits))).collect();
    assert_eq!(got_fields, vec![("cpu", 45.5), ("gpu", 60.0), ("fan", 0.0)]);
}

#[test]
fn a_point_without_tags_or_fields_is_still_a_point() {
    let point = build_point("intel_gpu_top", &[], &[], &[]).unwrap();
    assert_eq!(point.measurement(), "intel_gpu_top");
    assert!(point.tags().is_empty());
    assert!(point.fields().is_empty());
}

#[test]
fn there_is_no_point_for_a_part_of_the_fields() {
    let mappings = vec![point_mapping("cpu"), point_mapping("gpu")];
    assert!(build_point("sensors", &[], &mappings, &[1.0f64.to_bits()]).is_none());
    assert!(build_point("sensors", &[], &mappings, &[]).is_none());
    assert!(build_point("sensors", &[], &mappings, &[1, 2, 3]).is_none());
    assert!(build_point("sensors", &[], &[], &[1]).is_none());
}
