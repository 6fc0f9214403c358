use include_dir::{Dir, DirEntry, File};
use zfetch::ascii::{get_ascii_logo, process_logo_colors};
use zfetch::colors::ColorSystem;
use zfetch::config::Config;

static ENTRIES: [DirEntry<'static>; 2] = [
    DirEntry::File(File::new("arch.txt", b"$1/\\\n$2\\/")),
    DirEntry::File(File::new("broken.txt", &[0xff, 0xfe])),
];
static LOGOS: Dir<'static> = Dir::new("", &ENTRIES);

fn config() -> Config {
    Config {
        show_distro: None,
        show_distro_id: None,
        show_kernel: None,
        show_cpu: None,
        show_gpu: None,
        show_memory: None,
        show_swap: None,
        show_local_ip: None,
        show_battery: None,
        show_storage: None,
        show_uptime: None,
        logo_color: None,
        color: None,
        color_keys: None,
        color_title: None,
        box_outline_color: None,
        show_user_host: None,
    }
}

#[test]
fn logo_lookup() {
    assert_eq!(get_ascii_logo(&LOGOS, "arch"), "$1/\\\n$2\\/");
    assert_eq!(get_ascii_logo(&LOGOS, "broken"), "Logo not found");
    assert_eq!(get_ascii_logo(&LOGOS, "gentoo"), "Logo not found");
}

#[test]
fn logo_markers_colored() {
    let c = ColorSystem::new("arch", "Arch Linux", &config(), None, true);
    let out = process_logo_colors("$1/\\\n$2\\/", &c);
    assert_eq!(out, "\u{1b}[36m\u{1b}[36m/\\\n\u{1b}[36m\u{1b}[36m\\/\u{1b}[0m");
    let off = ColorSystem::new("arch", "Arch Linux", &config(), None, false);
    assert_eq!(process_logo_colors("$1/\\\n$2\\/", &off), "$1/\\\n$2\\/");
}

#[test]
fn dollar_without_digit_kept() {
    let c = ColorSystem::new("ubuntu", "Ubuntu", &config(), None, true);
    let out = process_logo_colors("$x$2", &c);
    assert_eq!(out, "\u{1b}[31m$x\u{1b}[37m\u{1b}[0m");
}
