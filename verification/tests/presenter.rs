use telemetry_session::presenter::{
    MemoryUnit, MetricClass, KILOBYTES_PER_GIGABYTE, KILOBYTES_PER_MEGABYTE,
};

fn shown(kilobytes: f32) -> String {
    let unit = MemoryUnit::for_kilobytes(kilobytes as u64);
    format!("{:.2} {}", kilobytes / unit.divisor() as f32, unit.suffix())
}

#[test]
fn known_names_fall_in_their_classes() {
    assert_eq!(MetricClass::of_name("CPU"), MetricClass::Cpu);
    assert_eq!(MetricClass::of_name("MEM"), MetricClass::Memory);
    assert_eq!(MetricClass::of_name("MEMORY"), MetricClass::Memory);
    assert_eq!(MetricClass::of_name("DISK"), MetricClass::Disk);
    assert_eq!(MetricClass::of_name("STORAGE"), MetricClass::Disk);
    assert_eq!(MetricClass::of_name("NETWORK"), MetricClass::Network);
    assert_eq!(MetricClass::of_name("NET"), MetricClass::Network);
    assert_eq!(MetricClass::of_name("TEMPERATURE"), MetricClass::Temperature);
    assert_eq!(MetricClass::of_name("TEMP"), MetricClass::Temperature);
}

#[test]
fn the_case_of_a_name_does_not_matter() {
    assert_eq!(MetricClass::of_name("cpu"), MetricClass::Cpu);
    assert_eq!(MetricClass::of_name("Memory"), MetricClass::Memory);
    assert_eq!(MetricClass::of_name("dIsK"), MetricClass::Disk);
    assert_eq!(MetricClass::of_name("net"), MetricClass::Network);
    assert_eq!(MetricClass::of_name("temp"), MetricClass::Temperature);
}

#[test]
fn unknown_names_are_other() {
    for name in ["", "FAN", "CPU0", " CPU", "MEM ", "CPUS", "GPU"] {
        assert_eq!(MetricClass::of_name(name), MetricClass::Other, "{:?}", name);
    }
}

#[test]
fn uppercase_tokens_are_classified_as_they_stand() {
    assert_eq!(MetricClass::from_token("STORAGE"), MetricClass::Disk);
    assert_eq!(MetricClass::from_token("storage"), MetricClass::Other);
}

#[test]
fn units_change_at_the_powers_of_1024() {
    assert_eq!(KILOBYTES_PER_MEGABYTE, 1024);
    assert_eq!(KILOBYTES_PER_GIGABYTE, 1024 * 1024);
    assert_eq!(MemoryUnit::for_kilobytes(0), MemoryUnit::Kilobytes);
    assert_eq!(MemoryUnit::for_kilobytes(500), MemoryUnit::Kilobytes);
    assert_eq!(MemoryUnit::for_kilobytes(1023), MemoryUnit::Kilobytes);
    assert_eq!(MemoryUnit::for_kilobytes(1024), MemoryUnit::Megabytes);
    assert_eq!(MemoryUnit::for_kilobytes(2048), MemoryUnit::Megabytes);
    assert_eq!(MemoryUnit::for_kilobytes(1_048_575), MemoryUnit::Megabytes);
    assert_eq!(MemoryUnit::for_kilobytes(1_048_576), MemoryUnit::Gigabytes);
    assert_eq!(MemoryUnit::for_kilobytes(2_097_152), MemoryUnit::Gigabytes);
    assert_eq!(MemoryUnit::for_kilobytes(u64::MAX), MemoryUnit::Gigabytes);
}

#[test]
fn units_know_their_size_and_abbreviation() {
    assert_eq!(MemoryUnit::Kilobytes.divisor(), 1);
    assert_eq!(MemoryUnit::Megabytes.divisor(), 1024);
    assert_eq!(MemoryUnit::Gigabytes.divisor(), 1_048_576);
    assert_eq!(MemoryUnit::Kilobytes.suffix(), "KB");
    assert_eq!(MemoryUnit::Megabytes.suffix(), "MB");
    assert_eq!(MemoryUnit::Gigabytes.suffix(), "GB");
}

#[test]
fn memory_values_are_shown_in_the_unit_that_fits() {
    assert_eq!(shown(500.0), "500.00 KB");
    assert_eq!(shown(2048.0), "2.00 MB");
    assert_eq!(shown(2_097_152.0), "2.00 GB");
}

#[test]
fn memory_values_at_the_boundaries_take_the_larger_unit() {
    assert_eq!(shown(1023.0), "1023.00 KB");
    assert_eq!(shown(1023.99), "1023.99 KB");
    assert_eq!(shown(1024.0), "1.00 MB");
    assert_eq!(shown(1_048_575.0), "1024.00 MB");
    assert_eq!(shown(1_048_576.0), "1.00 GB");
}
