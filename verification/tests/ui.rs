use zfetch::colors::ColorSystem;
use zfetch::config::Config;
use zfetch::system::{GpuInfo, GpuKind, StorageInfo, SystemInfo};
use zfetch::ui::{
    box_title, detect_terminal_width, info_pairs, pad_box_line, pad_box_title, render_output,
    truncate_visible, usage_text, visible_width,
};

fn config(show: Option<bool>) -> Config {
    Config {
        show_distro: show,
        show_distro_id: show,
        show_kernel: show,
        show_cpu: show,
        show_gpu: show,
        show_memory: show,
        show_swap: show,
        show_local_ip: show,
        show_battery: show,
        show_storage: show,
        show_uptime: show,
        logo_color: None,
        color: None,
        color_keys: None,
        color_title: None,
        box_outline_color: None,
        show_user_host: show,
    }
}

fn plain() -> ColorSystem {
    ColorSystem::new("ubuntu", "Ubuntu", &config(None), None, false)
}

fn info() -> SystemInfo {
    SystemInfo {
        distro: "Ubuntu 24.04".to_string(),
        distro_id: "ubuntu".to_string(),
        kernel: "6.8.0".to_string(),
        cpu: Some("Ryzen (8 cores)".to_string()),
        cpu_max_frequency: Some("4.20GHz".to_string()),
        gpus: vec![GpuInfo { name: "Matrox G200".to_string(), kind: GpuKind::Discrete }],
        total_memory: Some("16.00 GB".to_string()),
        used_memory: Some("4.00 GB".to_string()),
        total_swap: None,
        used_swap: None,
        uptime: Some("0d 1h 0m".to_string()),
        local_ip: None,
        battery: None,
        storage: vec![StorageInfo {
            name: "/".to_string(),
            total: "1.00 GB".to_string(),
            used: "0.50 GB".to_string(),
            percent: 50,
            fs_type: "ext4".to_string(),
            readonly: true,
        }],
        username: Some("ansh".to_string()),
        hostname: Some("box".to_string()),
    }
}

#[test]
fn truncation_counts_characters() {
    assert_eq!(truncate_visible("héllo", 2), "hé");
    assert_eq!(truncate_visible("abc", 0), "");
    assert_eq!(truncate_visible("abc", 10), "abc");
}

#[test]
fn width_skips_color_codes() {
    assert_eq!(visible_width("\u{1b}[31mabc\u{1b}[0m"), 5);
    assert_eq!(visible_width("[1;32mok[m"), 2);
    assert_eq!(visible_width("a[b]m"), 5);
    assert_eq!(visible_width("é"), 2);
}

#[test]
fn box_rows_plain() {
    let c = plain();
    assert_eq!(pad_box_line("CPU", "Ryzen", 24, &c), "│  CPU       : Ryzen   │");
    assert_eq!(pad_box_title("Title", 14, &c), "│    Title   │");
    assert_eq!(pad_box_line("Memory", "1234567890", 10, &c), "│  Memo: │");
}

#[test]
fn rows_and_title() {
    let rows = info_pairs(&info(), &config(None), "4.00 GB / 16.00 GB (25%)", "N/A / N/A (0%)");
    let labels: Vec<&str> = rows.iter().map(|(l, _)| l.as_str()).collect();
    assert_eq!(
        labels,
        vec![
            "Distro", "Distro ID", "Kernel", "CPU", "GPU 1", "Memory", "Swap", "Local IP",
            "Battery", "Uptime", "Disk (/)"
        ]
    );
    assert_eq!(rows[3].1, "Ryzen (8 cores) (4.20GHz)");
    assert_eq!(rows[4].1, "Matrox G200 [Discrete]");
    assert_eq!(rows[7].1, "N/A");
    assert_eq!(rows[10].1, "0.50 GB / 1.00 GB (50%) - ext4 [Read-only]");
    assert_eq!(box_title(&info(), &config(None)), "ansh@box | System Information");
    assert_eq!(box_title(&info(), &config(Some(false))), "System Information");
    assert!(info_pairs(&info(), &config(Some(false)), "", "").is_empty());
    assert_eq!(
        usage_text(&Some("4.00 GB".to_string()), &None, "25"),
        "4.00 GB / N/A (25%)"
    );
}

#[test]
fn terminal_width_sources() {
    assert_eq!(detect_terminal_width(Some(" 120 "), Some(90)), 120);
    assert_eq!(detect_terminal_width(Some("30"), Some(90)), 90);
    assert_eq!(detect_terminal_width(None, Some(0)), 80);
    assert_eq!(detect_terminal_width(Some("x"), None), 80);
}

#[test]
fn layout_side_by_side() {
    let c = plain();
    let rows = vec![("CPU".to_string(), "Ryzen".to_string())];
    let out = render_output("ab\ncd", &rows, "T", 40, &c);
    // blank, five box rows (top, title, separator, CPU, bottom), blank
    assert_eq!(out.len(), 7);
    assert_eq!(out[1], "     ab    ┌─────────────────────┐");
    assert_eq!(out[0], " ".repeat(34));
    assert!(out[4].contains("CPU       : Ryzen"));
    let widths: Vec<usize> = out[1..6].iter().map(|l| l.chars().count()).collect();
    assert!(widths.iter().all(|w| *w == widths[0]));
}
