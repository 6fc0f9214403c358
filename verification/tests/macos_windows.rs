use zfetch::macos;
use zfetch::macos::JsonValue;
use zfetch::windows;

#[test]
fn ioreg_model() {
    let out = b"  | |   \"vendor-id\" = <6b100000>\n  | |   \"model\" = <\"Apple M3\">\n";
    assert_eq!(macos::parse_ioreg_output(out).as_deref(), Some("<Apple M3>"));
    assert_eq!(macos::parse_ioreg_output(b"\"model\" = <\"Foo\">\n"), None);
}

#[test]
fn profiler_details() {
    assert_eq!(
        macos::format_gpu_details(Some("Apple M3"), Some(10), Some("1.4 GHz")),
        "Apple M3 (10 cores, 1.4 GHz)"
    );
    assert_eq!(macos::format_gpu_details(Some("Apple M3"), Some(10), None), "Apple M3 (10 cores)");
    assert_eq!(macos::format_gpu_details(None, None, None), "Unknown");
}

#[test]
fn mac_distro_and_names() {
    let d = macos::detect_distro("Mac OS", "26.0.0");
    assert_eq!(d.name, "Mac OS 26.0.0");
    assert_eq!(d.id, "macos");
    let names = vec!["Apple M3".to_string(), "AGXG15G".to_string()];
    assert_eq!(macos::join_gpu_names(&names), "Apple M3, AGXG15G");
}

#[test]
fn mac_root_volume() {
    let df = b"Filesystem 1024-blocks Used Available Capacity Mounted on\n/dev/disk3s1s1 482344960 10240 451286016 3% /System/Volumes\n/dev/disk3s5 482344960 431000000 51344960 90% /\n";
    let v = macos::collect(Some(b"apfs\n"), Some(df));
    assert_eq!(v.len(), 1);
    assert_eq!(v[0].fs_type, "apfs");
    assert_eq!(v[0].total, "460.00 GB");
    assert_eq!(v[0].percent, 89);
    let v = macos::collect(None, Some(df));
    assert_eq!(v[0].fs_type, "apfs");
    let v = macos::collect(Some(&[0xff]), Some(df));
    assert_eq!(v[0].fs_type, "apfs");
}

#[test]
fn windows_gpu_lines() {
    assert_eq!(windows::gpu_text(&vec![]), "GPU: Unknown");
    assert_eq!(windows::gpu_text(&vec!["A".to_string()]), "GPU: A");
    assert_eq!(
        windows::gpu_text(&vec!["A".to_string(), "B".to_string(), "C".to_string()]),
        "GPU: A\nGPU 2: B\nGPU 3: C"
    );
}

#[test]
fn windows_disks() {
    let out = b"DriveType FileSystem FreeSpace Name Size\nc: 1099511627776 549755813888 NTFS 3\nd: 0 0 FAT32 2\n";
    let v = windows::collect(Some(out));
    assert_eq!(v.len(), 1);
    assert_eq!(v[0].name, "C:/");
    assert_eq!(v[0].total, "1024.00 GB");
    assert_eq!(v[0].used, "512.00 GB");
    assert_eq!(v[0].percent, 50);
    assert_eq!(v[0].fs_type, "NTFS");
    assert!(windows::collect(None).is_empty());
}

#[test]
fn wmic_video_controllers() {
    let out = b"Name  \r\nNVIDIA GeForce RTX 3070  \r\n\r\nIntel(R) UHD Graphics 630\r\nNVIDIA GeForce RTX 3070\r\n";
    assert_eq!(
        windows::video_controller_names(out),
        vec!["Intel(R) UHD Graphics 630".to_string(), "NVIDIA GeForce RTX 3070".to_string()]
    );
    assert!(windows::video_controller_names(b"Name\r\n").is_empty());
    assert!(windows::video_controller_names(b"").is_empty());
}

#[test]
fn profiler_json_first_display() {
    let out = br#"{"SPDisplaysDataType":[{"sppci_model":"Apple M3","spdisplays_gpu_core_count":10,"spdisplays_gpu_core_clock":"1.4 GHz"},{"sppci_model":"Other"}]}"#;
    assert_eq!(
        macos::parse_system_profiler_output(out).as_deref(),
        Some("Apple M3 (10 cores, 1.4 GHz)")
    );
    let out = br#"{"SPDisplaysDataType":[{"spdisplays_gpu_core_count":"10"}]}"#;
    assert_eq!(macos::parse_system_profiler_output(out).as_deref(), Some("Unknown"));
    assert_eq!(macos::parse_system_profiler_output(br#"{"SPDisplaysDataType":[]}"#), None);
    assert_eq!(macos::parse_system_profiler_output(br#"{"Other":1}"#), None);
    assert_eq!(macos::parse_system_profiler_output(b"not json"), None);
}

#[test]
fn profiler_json_fields() {
    let out = br#"{"SPDisplaysDataType":[{"sppci_model":"Apple M3","spdisplays_gpu_core_count":10}]}"#;
    assert_eq!(macos::parse_system_profiler_output(out).as_deref(), Some("Apple M3 (10 cores)"));
    let out = br#"{"SPDisplaysDataType":[{"spdisplays_gpu_core_count":8,"spdisplays_gpu_core_clock":"1 GHz"}]}"#;
    assert_eq!(
        macos::parse_system_profiler_output(out).as_deref(),
        Some("Unknown (8 cores, 1 GHz)")
    );
    assert!(macos::parse_system_profiler_output(b"[]").is_none());
    let out = br#"{"SPDisplaysDataType":[{"sppci_model":"X","spdisplays_gpu_core_count":-3}]}"#;
    assert_eq!(macos::parse_system_profiler_output(out).as_deref(), Some("X"));
}

#[test]
fn gpu_details_from_document() {
    let gpu = JsonValue::Object(vec![
        ("spdisplays_gpu_core_clock".to_string(), JsonValue::Str("2 GHz".to_string())),
        ("spdisplays_gpu_core_count".to_string(), JsonValue::Number(Some(16))),
        ("sppci_model".to_string(), JsonValue::Str("Apple M4".to_string())),
    ]);
    let doc = JsonValue::Object(vec![(
        "SPDisplaysDataType".to_string(),
        JsonValue::Array(vec![gpu, JsonValue::Null]),
    )]);
    assert_eq!(
        macos::gpu_details_from_json(&doc).as_deref(),
        Some("Apple M4 (16 cores, 2 GHz)")
    );
    let doc = JsonValue::Object(vec![(
        "SPDisplaysDataType".to_string(),
        JsonValue::Array(vec![JsonValue::Object(vec![(
            "sppci_model".to_string(),
            JsonValue::Number(Some(1)),
        )])]),
    )]);
    assert_eq!(macos::gpu_details_from_json(&doc).as_deref(), Some("Unknown"));
    let empty = JsonValue::Object(vec![(
        "SPDisplaysDataType".to_string(),
        JsonValue::Array(Vec::new()),
    )]);
    assert!(macos::gpu_details_from_json(&empty).is_none());
    assert!(macos::gpu_details_from_json(&JsonValue::Bool(true)).is_none());
}
