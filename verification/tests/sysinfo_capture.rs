use bench_suite::sysinfo_capture::SystemInfo;

#[test]
fn test_system_info_capture() {
    let info = SystemInfo::capture();

    // Basic sanity checks
    assert!(!info.cpu_brand.is_empty());
    assert!(info.cpu_logical_cores > 0);
    assert!(info.total_memory_mb > 0);
    assert!(!info.os_name.is_empty());
}

#[test]
fn test_system_info_fields() {
    let info = SystemInfo::capture();

    // Verify all fields are populated
    assert!(!info.cpu_brand.is_empty());
    assert!(info.cpu_physical_cores <= info.cpu_logical_cores);
    assert!(info.total_memory_mb > 0);
    assert!(!info.os_name.is_empty());
    assert!(!info.os_version.is_empty());
    assert!(!info.hostname.is_empty());
}

#[test]
fn test_system_info_clone() {
    let info = SystemInfo::capture();
    let cloned = info.clone();

    assert_eq!(info.cpu_brand, cloned.cpu_brand);
    assert_eq!(info.cpu_physical_cores, cloned.cpu_physical_cores);
    assert_eq!(info.cpu_logical_cores, cloned.cpu_logical_cores);
    assert_eq!(info.total_memory_mb, cloned.total_memory_mb);
}

#[test]
fn test_system_info_debug() {
    let info = SystemInfo::capture();
    let debug_str = format!("{:?}", info);

    assert!(debug_str.contains("SystemInfo"));
    assert!(debug_str.contains("cpu_brand"));
}

#[test]
fn from_readings_records_what_was_read() {
    let info = SystemInfo::from_readings(
        vec!["Brand A".to_string(), "Brand B".to_string()],
        Some(1),
        8 * 1024 * 1024 * 1024 + 5,
        Some("Debian".to_string()),
        Some("12".to_string()),
        Some("bench-host".to_string()),
    );
    assert_eq!(info.cpu_brand, "Brand A");
    assert_eq!(info.cpu_physical_cores, 1);
    assert_eq!(info.cpu_logical_cores, 2);
    assert_eq!(info.total_memory_mb, 8192);
    assert_eq!(info.os_name, "Debian");
    assert_eq!(info.os_version, "12");
    assert_eq!(info.hostname, "bench-host");
}

#[test]
fn from_readings_fills_in_what_is_missing() {
    let info = SystemInfo::from_readings(Vec::new(), None, 1_048_575, None, None, None);
    assert_eq!(info.cpu_brand, "Unknown CPU");
    assert_eq!(info.cpu_physical_cores, 0);
    assert_eq!(info.cpu_logical_cores, 0);
    assert_eq!(info.total_memory_mb, 0);
    assert_eq!(info.os_name, "Unknown");
    assert_eq!(info.os_version, "Unknown");
    assert_eq!(info.hostname, "Unknown");
}

#[test]
fn capture_is_the_record_of_what_the_system_said() {
    let info = SystemInfo::capture();
    // No processor listed means no brand to take.
    if info.cpu_logical_cores == 0 {
        assert_eq!(info.cpu_brand, "Unknown CPU");
    }
    // Whole mebibytes of a byte count that fits 64 bits.
    assert!(info.total_memory_mb <= u64::MAX / 1048576);
}
