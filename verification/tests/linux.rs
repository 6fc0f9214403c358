use zfetch::linux::{
    build_distro_from_release, collect, detect_distro, detect_proxmox, gpu_names_from_lspci,
    needs_pveversion, normalize_logo_id, parse_key_values, pveversion_from_output, root_fs_type,
    trimmed_value,
};

const UBUNTU: &str = "NAME=\"Ubuntu\"\nVERSION_ID=\"24.04\"\n# comment\nPRETTY_NAME=\"Ubuntu 24.04 LTS\"\nID=ubuntu\nID_LIKE=debian\n\nGARBAGE\n";

#[test]
fn os_release_pairs() {
    let r = parse_key_values(UBUNTU).expect("pairs");
    assert_eq!(r.get("NAME").as_deref(), Some("Ubuntu"));
    assert_eq!(r.get("PRETTY_NAME").as_deref(), Some("Ubuntu 24.04 LTS"));
    assert_eq!(r.get("ID").as_deref(), Some("ubuntu"));
    assert_eq!(r.get("GARBAGE"), None);
    assert!(parse_key_values("# only a comment\n\n").is_none());
    let r = parse_key_values("ID=a\nID=b\n").expect("pairs");
    assert_eq!(r.get("ID").as_deref(), Some("b"));
}

#[test]
fn quoted_values() {
    let v: Vec<char> = "  \"x y\"  ".chars().collect();
    assert_eq!(trimmed_value(&v).into_iter().collect::<String>(), "x y");
    let v: Vec<char> = "\"".chars().collect();
    assert_eq!(trimmed_value(&v).into_iter().collect::<String>(), "\"");
}

#[test]
fn distro_from_os_release() {
    let r = parse_key_values(UBUNTU).unwrap();
    let d = build_distro_from_release(&r);
    assert_eq!(d.name, "Ubuntu 24.04 LTS");
    assert_eq!(d.id, "ubuntu");
    let r = parse_key_values("NAME=Fedora Linux\nVARIANT=\"Workstation Edition\"\nID_LIKE=\"rhel centos\"\n").unwrap();
    let d = build_distro_from_release(&r);
    assert_eq!(d.name, "Fedora Linux (Workstation Edition)");
    assert_eq!(d.id, "rhel");
    let r = parse_key_values("PRETTY_NAME=\"Linux Mint 21\"\n").unwrap();
    let d = build_distro_from_release(&r);
    assert_eq!(d.id, "linux_mint_21");
}

#[test]
fn logo_ids() {
    assert_eq!(normalize_logo_id("Linux Mint"), "linux_mint");
    assert_eq!(normalize_logo_id("  --Arch.Linux--  "), "arch_linux");
    assert_eq!(normalize_logo_id("a - b"), "a_b");
    assert_eq!(normalize_logo_id("!!!"), "unknown");
    assert_eq!(normalize_logo_id(""), "unknown");
}

#[test]
fn proxmox_detection() {
    let r = parse_key_values("ID=debian\nVERSION_ID=\"12\"\n").unwrap();
    assert!(detect_proxmox(&r, false, None).is_none());
    let d = detect_proxmox(&r, true, None).expect("proxmox");
    assert_eq!(d.name, "Proxmox VE 12");
    assert_eq!(d.id, "proxmox");
    let r = parse_key_values("ID=pve\n").unwrap();
    assert!(needs_pveversion(&r, false));
    let out = b"pve-manager/8.1.4/ec5affc9e41f1d79 (running kernel: 6.5.11-8-pve)\n";
    assert_eq!(pveversion_from_output(out).as_deref(), Some("8.1.4"));
    let d = detect_proxmox(&r, false, Some(out)).expect("proxmox");
    assert_eq!(d.name, "Proxmox VE 8.1.4");
    let d = detect_proxmox(&r, false, None).expect("proxmox");
    assert_eq!(d.name, "Proxmox VE");
    let r = parse_key_values("ID=debian\nID_LIKE=\"debian pve\"\n").unwrap();
    assert!(detect_proxmox(&r, false, None).is_some());
}

#[test]
fn distro_fallbacks() {
    let r = parse_key_values(UBUNTU).unwrap();
    let d = detect_distro(Some(&r), false, None, "Linux", "");
    assert_eq!(d.id, "ubuntu");
    let d = detect_distro(None, false, None, "Arch Linux", "rolling");
    assert_eq!(d.name, "Arch Linux rolling");
    assert_eq!(d.id, "arch_linux");
}

#[test]
fn mounts_root_type() {
    let mounts = "proc /proc proc rw 0 0\n/dev/sda2 / ext4 rw,relatime 0 0\n";
    assert_eq!(root_fs_type(mounts).as_deref(), Some("ext4"));
    assert_eq!(root_fs_type("proc /proc proc rw 0 0\n"), None);
}

#[test]
fn lspci_gpus_sorted_unique() {
    let out = b"00:02.0 VGA compatible controller: Intel Corporation UHD Graphics 620 (rev 07)\n01:00.0 3D controller: NVIDIA Corporation GP108M [GeForce MX150] (rev a1)\n00:1f.3 Audio device: Intel Corporation Sunrise Point-LP HD Audio (rev 21)\n02:00.0 VGA compatible controller: Intel Corporation UHD Graphics 620 (rev 07)\n";
    let names = gpu_names_from_lspci(out);
    assert_eq!(
        names,
        vec![
            "Intel Corporation UHD Graphics 620 (rev 07)".to_string(),
            "NVIDIA Corporation GP108M [GeForce MX150] (rev a1)".to_string()
        ]
    );
}

#[test]
fn df_root_volume() {
    let out = b"Filesystem 1K-blocks Used Available Use% Mounted on\n/dev/sda2 1048576 524288 524288 50% /\n";
    let v = collect(Some(out), Some("ext4"));
    assert_eq!(v.len(), 1);
    assert_eq!(v[0].name, "/");
    assert_eq!(v[0].total, "1.00 GB");
    assert_eq!(v[0].used, "0.50 GB");
    assert_eq!(v[0].percent, 50);
    assert_eq!(v[0].fs_type, "ext4");
    assert!(!v[0].readonly);
    let v = collect(Some(out), None);
    assert_eq!(v[0].fs_type, "unknown");
    assert!(collect(None, None).is_empty());
    assert!(collect(Some(b"Filesystem\n"), None).is_empty());
}

#[test]
fn lspci_invalid_bytes_replaced() {
    let names = gpu_names_from_lspci(b"00:02.0 VGA compatible controller: Foo\xff\n");
    assert_eq!(names, vec!["Foo\u{fffd}".to_string()]);
}

#[test]
fn logo_ids_are_lower_case() {
    assert_eq!(normalize_logo_id("ÀBC Ünix"), "bc_nix");
    assert_eq!(normalize_logo_id("KDE neon"), "kde_neon");
    let id = normalize_logo_id("Ǳ Fedora_Linux 40");
    assert!(id
        .chars()
        .all(|c| c.is_ascii_lowercase() || c.is_ascii_digit() || c == '_'));
    assert_eq!(id, "fedora_linux_40");
}
