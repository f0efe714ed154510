use metric_sampler::json_ptr::JsonPtr;
use serde_json::{Number, Value};

fn ptr_doc(text: &str) -> Value {
    serde_json::from_str(text).unwrap()
}

fn ptr_number(bits: Option<u64>) -> Option<f64> {
    bits.map(f64::from_bits)
}

/// A document in which `value` sits below `segments`, one object per segment.
fn ptr_nested(segments: &[&str], value: f64) -> Value {
    let mut node = Value::Number(Number::from_f64(value).unwrap());
    for segment in segments.iter().rev() {
        let mut object = serde_json::Map::new();
        object.insert(segment.to_string(), node);
        node = Value::Object(object);
    }
    node
}

#[test]
fn path() {
    let path = &["~e~ngine~s~", "/R/ender/3D/", "busy~"];
    let exp = "/~0e~0ngine~0s~0/~1R~1ender~13D~1/busy~0";
    assert_eq!(exp, JsonPtr::new(path).as_str());
}

#[test]
fn json_ptr_path() {
    let path = &["~e~ngine~s~", "/R/ender/3D/", "busy~"];
    let exp = "/~0e~0ngine~0s~0/~1R~1ender~13D~1/busy~0";
    assert_eq!(exp, JsonPtr::new(path).as_str());
}

#[test]
fn empty() {
    let path: &[&str] = &[];
    assert_eq!("", JsonPtr::new(path).as_str());
}

#[test]
fn json_ptr_empty() {
    let path: &[&str] = &[];
    let exp = "";
    assert_eq!(exp, JsonPtr::new(path).as_str());
}

#[test]
fn path_from_a_configured_list() {
    let json = r#"{ "name": "hi", "path": ["a", "/", "~", "b"] }"#;
    let parsed = ptr_doc(json);
    let raw: Vec<&str> = parsed["path"]
        .as_array()
        .unwrap()
        .iter()
        .map(|segment| segment.as_str().unwrap())
        .collect();

    assert_eq!(parsed["name"].as_str(), Some("hi"));
    assert_eq!(JsonPtr::new(&raw).as_str(), "/a/~1/~0/b");
}

#[test]
fn default_is_the_empty_pointer() {
    assert_eq!(JsonPtr::default().as_str(), "");
}

#[test]
fn tilde_is_escaped_before_slash() {
    assert_eq!(JsonPtr::new(&["/"]).as_str(), "/~1");
    assert_eq!(JsonPtr::new(&["~"]).as_str(), "/~0");
    assert_eq!(JsonPtr::new(&["~/"]).as_str(), "/~0~1");
    assert_eq!(JsonPtr::new(&["~1"]).as_str(), "/~01");
    assert_eq!(JsonPtr::new(&["~0"]).as_str(), "/~00");
}

#[test]
fn empty_segments_keep_their_slash() {
    assert_eq!(JsonPtr::new(&[""]).as_str(), "/");
    assert_eq!(JsonPtr::new(&["", ""]).as_str(), "//");
    assert_eq!(JsonPtr::new(&["a", "", "b"]).as_str(), "/a//b");
}

#[test]
fn other_characters_are_kept() {
    assert_eq!(JsonPtr::new(&["Render/3D ü", "°C"]).as_str(), "/Render~13D ü/°C");
}

#[test]
fn distinct_segment_lists_give_distinct_pointers() {
    let lists: Vec<Vec<&str>> = vec![
        vec![],
        vec![""],
        vec!["", ""],
        vec!["a/b"],
        vec!["a~1b"],
        vec!["a", "b"],
        vec!["a~", "1b"],
        vec!["a~0b"],
        vec!["a~b"],
        vec!["~"],
        vec!["~0"],
        vec!["/"],
        vec!["~1"],
    ];
    for (i, a) in lists.iter().enumerate() {
        for (j, b) in lists.iter().enumerate() {
            let same = JsonPtr::new(a).as_str() == JsonPtr::new(b).as_str();
            assert_eq!(same, i == j, "{:?} and {:?}", a, b);
        }
    }
}

#[test]
fn get_f64_finds_a_nested_number() {
    let val = ptr_doc(r#"{"engines":{"Render/3D":{"busy":12.5,"unit":"%"}},"period":{"duration":1000}}"#);

    let busy = JsonPtr::new(&["engines", "Render/3D", "busy"]);
    assert_eq!(ptr_number(busy.get_f64(&val)), Some(12.5));

    let duration = JsonPtr::new(&["period", "duration"]);
    assert_eq!(ptr_number(duration.get_f64(&val)), Some(1000.0));
}

#[test]
fn get_f64_reads_integers_as_floats() {
    let val = ptr_doc(r#"{"a":64,"b":-64,"c":256.0}"#);
    assert_eq!(ptr_number(JsonPtr::new(&["a"]).get_f64(&val)), Some(64.0));
    assert_eq!(ptr_number(JsonPtr::new(&["b"]).get_f64(&val)), Some(-64.0));
    assert_eq!(ptr_number(JsonPtr::new(&["c"]).get_f64(&val)), Some(256.0));
}

#[test]
fn get_f64_is_absent_for_a_missing_segment() {
    let val = ptr_doc(r#"{"a":{"b":1}}"#);
    assert_eq!(JsonPtr::new(&["a", "c"]).get_f64(&val), None);
    assert_eq!(JsonPtr::new(&["x"]).get_f64(&val), None);
    assert_eq!(JsonPtr::new(&["a", "b", "c"]).get_f64(&val), None);
}

#[test]
fn get_f64_is_absent_for_what_is_not_a_number() {
    let val = ptr_doc(r#"{"a":{"b":1},"s":"1","n":null,"t":true,"l":[1]}"#);
    assert_eq!(JsonPtr::new(&["a"]).get_f64(&val), None);
    assert_eq!(JsonPtr::new(&["s"]).get_f64(&val), None);
    assert_eq!(JsonPtr::new(&["n"]).get_f64(&val), None);
    assert_eq!(JsonPtr::new(&["t"]).get_f64(&val), None);
    assert_eq!(JsonPtr::new(&["l"]).get_f64(&val), None);
}

#[test]
fn the_empty_path_is_the_root() {
    let path: &[&str] = &[];
    assert_eq!(ptr_number(JsonPtr::new(path).get_f64(&ptr_doc("42.5"))), Some(42.5));
    assert_eq!(JsonPtr::new(path).get_f64(&ptr_doc(r#"{"a":1}"#)), None);
    assert_eq!(ptr_number(JsonPtr::default().get_f64(&ptr_doc("7"))), Some(7.0));
}

#[test]
fn the_empty_segment_is_a_member_with_an_empty_name() {
    let val = ptr_doc(r#"{"":{"":3.5},"a":1}"#);
    assert_eq!(ptr_number(JsonPtr::new(&["", ""]).get_f64(&val)), Some(3.5));
    assert_eq!(JsonPtr::new(&[""]).get_f64(&val), None);
}

#[test]
fn a_segment_can_index_an_array() {
    let val = ptr_doc(r#"{"x":{"y":[10,20.5,"z"]}}"#);
    assert_eq!(ptr_number(JsonPtr::new(&["x", "y", "1"]).get_f64(&val)), Some(20.5));
    assert_eq!(JsonPtr::new(&["x", "y", "2"]).get_f64(&val), None);
    assert_eq!(JsonPtr::new(&["x", "y", "3"]).get_f64(&val), None);
    assert_eq!(JsonPtr::new(&["x", "y", "01"]).get_f64(&val), None);
}

#[test]
fn a_leaf_put_under_segments_is_found_again() {
    let cases: Vec<Vec<&str>> = vec![
        vec!["a", "b"],
        vec!["a/b"],
        vec!["a~1b"],
        vec!["~e~ngine~s~", "/R/ender/3D/", "busy~"],
        vec!["~0", "~1", "~01", "~~", "//"],
        vec!["", "x", ""],
        vec!["0", "1"],
    ];
    for (i, segments) in cases.iter().enumerate() {
        let value = 1.5 + i as f64;
        let val = ptr_nested(segments, value);
        assert_eq!(ptr_number(JsonPtr::new(segments).get_f64(&val)), Some(value), "{:?}", segments);
    }
}

#[test]
fn segments_that_only_look_alike_do_not_find_each_other() {
    let val = ptr_nested(&["a/b"], 1.0);
    assert_eq!(JsonPtr::new(&["a", "b"]).get_f64(&val), None);
    assert_eq!(JsonPtr::new(&["a~1b"]).get_f64(&val), None);

    let val = ptr_nested(&["a~1b"], 2.0);
    assert_eq!(JsonPtr::new(&["a/b"]).get_f64(&val), None);
    assert_eq!(ptr_number(JsonPtr::new(&["a~1b"]).get_f64(&val)), Some(2.0));
}
