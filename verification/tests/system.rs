use zfetch::config::Config;
use zfetch::system::{
    assemble_system_info, battery_text, build_gpu_list, classify_gpu_name, detect_battery,
    detect_cpu, detect_distro, detect_memory, format_uptime, next_gpu_step, normalize_gpu_name,
    reading_plan, DistroInfo, GpuKind, GpuProbe, GpuStep, MemoryStats, PowerState, Readings,
};

#[test]
fn gpu_names_from_lspci_descriptions() {
    assert_eq!(
        normalize_gpu_name("NVIDIA Corporation GA104 [GeForce RTX 3070] (rev a1)"),
        "NVIDIA GeForce RTX 3070"
    );
    assert_eq!(
        normalize_gpu_name(
            "Advanced Micro Devices, Inc. [AMD/ATI] Navi 21 [Radeon RX 6800 XT] (rev c1)"
        ),
        "AMD Radeon RX 6800 XT"
    );
    assert_eq!(
        normalize_gpu_name("Intel Corporation UHD Graphics 620 (rev 07)"),
        "Intel UHD Graphics 620"
    );
    assert_eq!(normalize_gpu_name("   "), "Unknown");
    assert_eq!(normalize_gpu_name("Apple M3"), "Apple M3");
    assert_eq!(normalize_gpu_name("Some Device"), "Some");
    assert_eq!(normalize_gpu_name("NVIDIA Corporation"), "NVIDIA");
}

#[test]
fn gpu_kinds() {
    assert_eq!(classify_gpu_name("Intel UHD Graphics 620"), GpuKind::Integrated);
    assert_eq!(classify_gpu_name("NVIDIA GeForce RTX 3070"), GpuKind::Discrete);
    assert_eq!(classify_gpu_name("AMD Radeon RX 6800 XT"), GpuKind::Discrete);
    assert_eq!(classify_gpu_name("AMD Radeon Vega 8"), GpuKind::Integrated);
    assert_eq!(classify_gpu_name("Apple M3"), GpuKind::Integrated);
    assert_eq!(classify_gpu_name("Matrox G200"), GpuKind::Discrete);
    assert_eq!(GpuKind::Integrated.label(), "Integrated");
    assert_eq!(GpuKind::Discrete.label(), "Discrete");
}

#[test]
fn discrete_gpus_listed_first() {
    let raw = vec![
        "Intel Corporation UHD Graphics 620 (rev 07)".to_string(),
        "NVIDIA Corporation GA104 [GeForce RTX 3070] (rev a1)".to_string(),
        "AMD Radeon Vega 8".to_string(),
        "Matrox G200".to_string(),
    ];
    let list = build_gpu_list(&raw);
    let names: Vec<&str> = list.iter().map(|g| g.name.as_str()).collect();
    assert_eq!(
        names,
        vec![
            "NVIDIA GeForce RTX 3070",
            "Matrox G200",
            "Intel UHD Graphics 620",
            "AMD Radeon Vega 8"
        ]
    );
    assert_eq!(list[0].kind, GpuKind::Discrete);
    assert_eq!(list[3].kind, GpuKind::Integrated);
}

#[test]
fn uptime_text() {
    assert_eq!(format_uptime(0), Some("0d 0h 0m".to_string()));
    assert_eq!(format_uptime(93_784), Some("1d 2h 3m".to_string()));
    assert_eq!(format_uptime(412_740), Some("4d 18h 39m".to_string()));
    assert_eq!(format_uptime(86_399), Some("0d 23h 59m".to_string()));
}

#[test]
fn cpu_line() {
    assert_eq!(
        detect_cpu(Some("Apple M3"), Some(8), 8),
        Some("Apple M3 (8 cores)".to_string())
    );
    assert_eq!(detect_cpu(Some("   "), None, 4), Some("Unknown (4 cores)".to_string()));
    assert_eq!(detect_cpu(None, None, 2), Some("Unknown (2 cores)".to_string()));
}

#[test]
fn memory_values() {
    let m = detect_memory(17_179_869_184, 1_073_741_824, 0, 0);
    assert_eq!(m.total.as_deref(), Some("16.00 GB"));
    assert_eq!(m.used.as_deref(), Some("1.00 GB"));
    assert_eq!(m.swap_total.as_deref(), Some("0.00 GB"));
}

#[test]
fn battery_lines() {
    assert_eq!(battery_text(27, PowerState::Charging), "27% [AC Connected]");
    assert_eq!(battery_text(100, PowerState::Full), "100% [AC Connected]");
    assert_eq!(battery_text(5, PowerState::Discharging), "5% [Discharging]");
    assert_eq!(detect_battery(), None);
}

#[test]
fn generic_distro() {
    let d = detect_distro("Free BSD", "14.0");
    assert_eq!(d.name, "Free BSD 14.0");
    assert_eq!(d.id, "free_bsd");
    let d = detect_distro("Redox", "Unknown");
    assert_eq!(d.name, "Redox");
    assert_eq!(d.id, "redox");
}

fn config_all(show: Option<bool>) -> Config {
    Config {
        show_distro: show,
        show_distro_id: show,
        show_kernel: show,
        show_cpu: show,
        show_gpu: show,
        show_memory: show,
        show_swap: show,
        show_local_ip: show,
        show_battery: show,
        show_storage: show,
        show_uptime: show,
        logo_color: None,
        color: None,
        color_keys: None,
        color_title: None,
        box_outline_color: None,
        show_user_host: show,
    }
}

fn readings() -> Readings {
    Readings {
        distro: DistroInfo { name: "Ubuntu 24.04".to_string(), id: "ubuntu".to_string() },
        kernel: "6.8.0".to_string(),
        cpu: Some("Ryzen (8 cores)".to_string()),
        cpu_max_frequency: Some("4.20GHz".to_string()),
        memory: Some(MemoryStats {
            total: Some("16.00 GB".to_string()),
            used: Some("4.00 GB".to_string()),
            swap_total: Some("2.00 GB".to_string()),
            swap_used: Some("0.00 GB".to_string()),
        }),
        uptime_secs: Some(3_600),
        gpu_names: vec!["Intel Corporation UHD Graphics 620".to_string(), "Matrox G200".to_string()],
        local_ip: Some("10.0.0.2".to_string()),
        battery: None,
        storage: Vec::new(),
        username: Some("ansh".to_string()),
        hostname: None,
    }
}

#[test]
fn summary_keeps_shown_lines() {
    let info = assemble_system_info(&config_all(None), readings());
    assert_eq!(info.distro, "Ubuntu 24.04");
    assert_eq!(info.distro_id, "ubuntu");
    assert_eq!(info.cpu.as_deref(), Some("Ryzen (8 cores)"));
    assert_eq!(info.uptime.as_deref(), Some("0d 1h 0m"));
    assert_eq!(info.total_swap.as_deref(), Some("2.00 GB"));
    assert_eq!(info.gpus.len(), 2);
    assert_eq!(info.gpus[0].name, "Matrox G200");
    assert_eq!(info.local_ip.as_deref(), Some("10.0.0.2"));
}

#[test]
fn summary_drops_hidden_lines() {
    let info = assemble_system_info(&config_all(Some(false)), readings());
    assert_eq!(info.cpu, None);
    assert_eq!(info.cpu_max_frequency, None);
    assert_eq!(info.total_memory, None);
    assert_eq!(info.used_swap, None);
    assert_eq!(info.uptime, None);
    assert!(info.gpus.is_empty());
    assert_eq!(info.local_ip, None);
    assert_eq!(info.username.as_deref(), Some("ansh"));
    let plan = reading_plan(&config_all(Some(false)));
    assert!(!plan.cpu && !plan.memory && !plan.gpu && !plan.storage);
    let plan = reading_plan(&config_all(None));
    assert!(plan.cpu && plan.memory && plan.uptime && plan.battery);
}

#[test]
fn gpu_kind_compares_lower_case() {
    assert_eq!(classify_gpu_name("INTEL HD"), GpuKind::Integrated);
    assert_eq!(normalize_gpu_name("QUALCOMM Adreno 640"), "QUALCOMM Adreno 640");
    assert_eq!(normalize_gpu_name("Adreno [QUALCOMM X]"), "QUALCOMM X");
    assert_eq!(normalize_gpu_name("Qualcomm Adreno (rev 2)"), "Qualcomm Adreno");
}

#[test]
fn gpu_probe_order() {
    let names = vec!["A".to_string(), "B".to_string()];
    assert!(matches!(next_gpu_step(GpuProbe::Lspci, vec![]), GpuStep::Run(GpuProbe::OpenGl)));
    assert!(matches!(next_gpu_step(GpuProbe::OpenGl, vec![]), GpuStep::Run(GpuProbe::Vulkan)));
    match next_gpu_step(GpuProbe::Vulkan, vec![]) {
        GpuStep::Done(v) => assert!(v.is_empty()),
        GpuStep::Run(_) => panic!("Vulkan is the last probe"),
    }
    match next_gpu_step(GpuProbe::Lspci, names.clone()) {
        GpuStep::Done(v) => assert_eq!(v, names),
        GpuStep::Run(_) => panic!("lspci found GPUs"),
    }
    match next_gpu_step(GpuProbe::IoKit, names.clone()) {
        GpuStep::Done(v) => assert_eq!(v, vec!["A, B".to_string()]),
        GpuStep::Run(_) => panic!("the registry found GPUs"),
    }
    assert!(matches!(next_gpu_step(GpuProbe::IoKit, vec![]), GpuStep::Run(GpuProbe::Ioreg)));
    assert!(matches!(next_gpu_step(GpuProbe::Ioreg, vec![]), GpuStep::Run(GpuProbe::SystemProfiler)));
    match next_gpu_step(GpuProbe::SystemProfiler, vec![]) {
        GpuStep::Done(v) => assert_eq!(v, vec!["Unknown".to_string()]),
        GpuStep::Run(_) => panic!("system_profiler is the last probe"),
    }
}

#[test]
fn gpu_notes_do_not_change_the_name() {
    let bases = [
        "NVIDIA Corporation GA104 [GeForce RTX 3070]",
        "Intel Corporation UHD Graphics 620",
        "  Advanced Micro Devices, Inc. [AMD/ATI] Navi 23  ",
        "Apple M3",
    ];
    for base in bases {
        let plain = normalize_gpu_name(base);
        assert_eq!(normalize_gpu_name(&format!("{base} (rev a1)")), plain);
        assert_eq!(normalize_gpu_name(&format!("{base} (rev")), plain);
        assert_eq!(
            normalize_gpu_name(&format!("{base} [Subsystem: Dell Device 0a7e] (rev 07)")),
            plain
        );
        assert_eq!(normalize_gpu_name(&format!("{base} [Subsystem  ")), plain);
    }
}
