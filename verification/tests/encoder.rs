use telemetry_session::encoder::{build_telemetry_json, encode_record};
use telemetry_session::metric::HardwareMetric;
use telemetry_session::sample::{check_value_text, Sample, SampleError};

fn complete(cpu: &str, memory: &str) -> Sample {
    Sample::from_values(&vec![cpu.to_string(), memory.to_string()]).expect("two value texts")
}

#[test]
fn metric_tokens_are_fixed() {
    assert_eq!(HardwareMetric::Cpu.as_str(), "CPU");
    assert_eq!(HardwareMetric::Memory.as_str(), "MEM");
}

#[test]
fn all_lists_kinds_in_enumeration_order() {
    assert_eq!(HardwareMetric::all(), &[HardwareMetric::Cpu, HardwareMetric::Memory]);
}

#[test]
fn complete_sample_pairs_kinds_with_values() {
    let sample = complete("23.4", "812345");
    assert_eq!(sample.len(), 2);
    assert_eq!(sample.metric(0), HardwareMetric::Cpu);
    assert_eq!(sample.value(0), "23.4");
    assert_eq!(sample.metric(1), HardwareMetric::Memory);
    assert_eq!(sample.value(1), "812345");
}

#[test]
fn from_values_wants_one_value_per_kind() {
    assert!(Sample::from_values(&vec![]).is_none());
    assert!(Sample::from_values(&vec!["1".to_string()]).is_none());
    assert!(Sample::from_values(&vec!["1".to_string(), "2".to_string(), "3".to_string()]).is_none());
}

#[test]
fn from_values_rejects_a_malformed_value() {
    assert!(Sample::from_values(&vec!["1.0".to_string(), "2 0".to_string()]).is_none());
    assert!(Sample::from_values(&vec!["".to_string(), "2".to_string()]).is_none());
}

#[test]
fn push_rejects_a_duplicate_kind() {
    let mut sample = Sample::new();
    assert_eq!(sample.push(HardwareMetric::Cpu, "1.5".to_string()), Ok(()));
    assert_eq!(
        sample.push(HardwareMetric::Cpu, "2.5".to_string()),
        Err(SampleError::DuplicateKind)
    );
    assert_eq!(sample.len(), 1);
    assert_eq!(sample.value(0), "1.5");
}

#[test]
fn push_rejects_a_malformed_value() {
    let mut sample = Sample::new();
    assert_eq!(
        sample.push(HardwareMetric::Memory, "12\n".to_string()),
        Err(SampleError::MalformedValue)
    );
    assert_eq!(sample.len(), 0);
    assert!(!sample.contains(HardwareMetric::Memory));
}

#[test]
fn a_duplicate_kind_is_reported_before_a_malformed_value() {
    let mut sample = Sample::new();
    assert_eq!(sample.push(HardwareMetric::Cpu, "1".to_string()), Ok(()));
    assert_eq!(sample.push(HardwareMetric::Cpu, "".to_string()), Err(SampleError::DuplicateKind));
}

#[test]
fn contains_finds_present_kinds_only() {
    let mut sample = Sample::new();
    assert!(!sample.contains(HardwareMetric::Cpu));
    assert_eq!(sample.push(HardwareMetric::Memory, "7".to_string()), Ok(()));
    assert!(sample.contains(HardwareMetric::Memory));
    assert!(!sample.contains(HardwareMetric::Cpu));
}

#[test]
fn value_texts_are_recognised() {
    for text in ["0", "23.4", "-1.5", "812345", "1e-7", "3.4E+38", "NaN", "inf", "-inf"] {
        assert!(check_value_text(text), "{}", text);
    }
    for text in ["", " ", " 1", "1 ", "1,2", "\"1\"", "1\n", "{1}", "\u{0661}", "1\u{00A0}"] {
        assert!(!check_value_text(text), "{:?}", text);
    }
}

#[test]
fn encodes_a_complete_sample() {
    let mut buffer = String::new();
    encode_record(&complete("23.4", "812345"), &mut buffer);
    assert_eq!(buffer, "{\"CPU\": 23.4, \"MEM\": 812345}\n");
}

#[test]
fn encodes_a_single_reading_without_separator() {
    let mut sample = Sample::new();
    assert_eq!(sample.push(HardwareMetric::Memory, "2048".to_string()), Ok(()));
    let mut buffer = String::new();
    encode_record(&sample, &mut buffer);
    assert_eq!(buffer, "{\"MEM\": 2048}\n");
}

#[test]
fn encodes_the_empty_sample_as_an_empty_object() {
    let mut buffer = String::new();
    encode_record(&Sample::new(), &mut buffer);
    assert_eq!(buffer, "{}\n");
}

#[test]
fn encoding_clears_the_buffer_and_reuses_it() {
    let mut buffer = String::with_capacity(256);
    buffer.push_str("left over from the last tick");
    let capacity = buffer.capacity();
    encode_record(&complete("1.5", "2"), &mut buffer);
    assert_eq!(buffer, "{\"CPU\": 1.5, \"MEM\": 2}\n");
    assert_eq!(buffer.capacity(), capacity);
}

#[test]
fn the_object_is_appended_to_what_the_buffer_holds() {
    let mut buffer = String::from("> ");
    build_telemetry_json(&complete("1.5", "2"), &mut buffer);
    assert_eq!(buffer, "> {\"CPU\": 1.5, \"MEM\": 2}");
}

#[test]
fn keys_come_in_the_order_of_the_sample() {
    let mut sample = Sample::new();
    assert_eq!(sample.push(HardwareMetric::Memory, "2".to_string()), Ok(()));
    assert_eq!(sample.push(HardwareMetric::Cpu, "1".to_string()), Ok(()));
    let mut buffer = String::new();
    encode_record(&sample, &mut buffer);
    assert_eq!(buffer, "{\"MEM\": 2, \"CPU\": 1}\n");
    let memory = buffer.find("\"MEM\"").expect("memory key");
    let cpu = buffer.find("\"CPU\"").expect("cpu key");
    assert!(memory < cpu);
}

#[test]
fn encoding_twice_gives_identical_bytes() {
    let sample = complete("99.9", "1048576");
    let mut first = String::new();
    let mut second = String::from("something else");
    encode_record(&sample, &mut first);
    encode_record(&sample, &mut second);
    assert_eq!(first.as_bytes(), second.as_bytes());
    encode_record(&sample, &mut first);
    assert_eq!(first.as_bytes(), second.as_bytes());
}

#[test]
fn a_record_ends_in_exactly_one_newline() {
    let mut buffer = String::new();
    encode_record(&complete("0", "0"), &mut buffer);
    assert!(buffer.ends_with('\n'));
    assert_eq!(buffer.matches('\n').count(), 1);
}
