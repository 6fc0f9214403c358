//! The table of logo colors by distribution: which names a logo answers to, the
//! ANSI codes of its color slots, and the codes for the key and title text.
use vstd::prelude::*;

verus! {

/// One row of the logo color table.
pub struct LogoColorEntry {
    /// Lower-case names under which the entry is found.
    pub names: Vec<&'static str>,
    /// ANSI SGR codes of the logo's color slots `$1`, `$2`, ...
    pub colors: Vec<&'static str>,
    /// ANSI SGR code for the labels, when the logo has one.
    pub color_keys: Option<&'static str>,
    /// ANSI SGR code for the title, when the logo has one.
    pub color_title: Option<&'static str>,
}

/// The mathematical content of a table row.
pub struct LogoColorView {
    pub names: Seq<Seq<char>>,
    pub colors: Seq<Seq<char>>,
    pub color_keys: Option<Seq<char>>,
    pub color_title: Option<Seq<char>>,
}

pub open spec fn str_views(v: Seq<&'static str>) -> Seq<Seq<char>> {
    v.map_values(|s: &'static str| s@)
}

pub open spec fn opt_str_view(o: Option<&'static str>) -> Option<Seq<char>> {
    match o {
        Some(s) => Some(s@),
        None => None,
    }
}

impl View for LogoColorEntry {
    type V = LogoColorView;

    open spec fn view(&self) -> LogoColorView {
        LogoColorView {
            names: str_views(self.names@),
            colors: str_views(self.colors@),
            color_keys: opt_str_view(self.color_keys),
            color_title: opt_str_view(self.color_title),
        }
    }
}

impl Clone for LogoColorEntry {
    fn clone(&self) -> (r: Self)
        ensures
            r@ == self@,
    {
        LogoColorEntry {
            names: self.names.clone(),
            colors: self.colors.clone(),
            color_keys: self.color_keys,
            color_title: self.color_title,
        }
    }
}

pub open spec fn row(
    names: Seq<Seq<char>>,
    colors: Seq<Seq<char>>,
    color_keys: Option<Seq<char>>,
    color_title: Option<Seq<char>>,
) -> LogoColorView {
    LogoColorView { names, colors, color_keys, color_title }
}

/// The logo color table.
pub open spec fn logo_color_table() -> Seq<LogoColorView> {
    seq![
        row(seq!["unknown"@, "linux"@], seq!["37"@, "30"@, "33"@], None, None),
        row(seq!["ubuntu"@], seq!["31"@, "37"@], Some("31"@), Some("31"@)),
        row(seq!["arch"@, "archlinux"@, "arch linux"@], seq!["36"@, "36"@], Some("36"@), Some("36"@)),
        row(seq!["debian"@], seq!["31"@, "31"@], Some("31"@), Some("31"@)),
        row(seq!["fedora"@], seq!["34"@, "37"@], Some("34"@), Some("34"@)),
        row(seq!["macos"@, "mac os"@, "darwin"@], seq!["32"@, "33"@, "31"@, "31"@, "35"@, "34"@], Some("33"@), Some("32"@)),
        row(seq!["windows"@, "windows_10"@], seq!["36"@, "34"@], Some("34"@), Some("36"@)),
        row(seq!["windows_11"@], seq!["34"@, "34"@], Some("34"@), Some("34"@)),
        row(seq!["linuxmint"@, "linux mint"@, "mint"@], seq!["32"@, "37"@], Some("32"@), None),
        row(seq!["manjaro"@], seq!["32"@], None, None),
        row(seq!["proxmox"@], seq!["37"@, "31"@], Some("31"@), Some("37"@)),
        row(seq!["nixos"@], seq!["34"@, "36"@], Some("34"@), None),
    ]
}

fn entry(
    names: Vec<&'static str>,
    colors: Vec<&'static str>,
    color_keys: Option<&'static str>,
    color_title: Option<&'static str>,
) -> (e: LogoColorEntry)
    ensures
        e.names == names,
        e.colors == colors,
        e.color_keys == color_keys,
        e.color_title == color_title,
{
    LogoColorEntry { names, colors, color_keys, color_title }
}

/// The rows of the logo color table.
pub fn logo_color_entries() -> (r: Vec<LogoColorEntry>)
    ensures
        r@.map_values(|e: LogoColorEntry| e@) == logo_color_table(),
{
    let mut r: Vec<LogoColorEntry> = Vec::new();
    let e = entry(vec!["unknown", "linux"], vec!["37", "30", "33"], None, None);
    assert(e@.names =~= seq!["unknown"@, "linux"@]);
    assert(e@.colors =~= seq!["37"@, "30"@, "33"@]);
    assert(e@ == row(seq!["unknown"@, "linux"@], seq!["37"@, "30"@, "33"@], None, None));
    r.push(e);
    let e = entry(vec!["ubuntu"], vec!["31", "37"], Some("31"), Some("31"));
    assert(e@.names =~= seq!["ubuntu"@]);
    assert(e@.colors =~= seq!["31"@, "37"@]);
    assert(e@ == row(seq!["ubuntu"@], seq!["31"@, "37"@], Some("31"@), Some("31"@)));
    r.push(e);
    let e = entry(vec!["arch", "archlinux", "arch linux"], vec!["36", "36"], Some("36"), Some("36"));
    assert(e@.names =~= seq!["arch"@, "archlinux"@, "arch linux"@]);
    assert(e@.colors =~= seq!["36"@, "36"@]);
    assert(e@ == row(seq!["arch"@, "archlinux"@, "arch linux"@], seq!["36"@, "36"@], Some("36"@), Some("36"@)));
    r.push(e);
    let e = entry(vec!["debian"], vec!["31", "31"], Some("31"), Some("31"));
    assert(e@.names =~= seq!["debian"@]);
    assert(e@.colors =~= seq!["31"@, "31"@]);
    assert(e@ == row(seq!["debian"@], seq!["31"@, "31"@], Some("31"@), Some("31"@)));
    r.push(e);
    let e = entry(vec!["fedora"], vec!["34", "37"], Some("34"), Some("34"));
    assert(e@.names =~= seq!["fedora"@]);
    assert(e@.colors =~= seq!["34"@, "37"@]);
    assert(e@ == row(seq!["fedora"@], seq!["34"@, "37"@], Some("34"@), Some("34"@)));
    r.push(e);
    let e = entry(vec!["macos", "mac os", "darwin"], vec!["32", "33", "31", "31", "35", "34"], Some("33"), Some("32"));
    assert(e@.names =~= seq!["macos"@, "mac os"@, "darwin"@]);
    assert(e@.colors =~= seq!["32"@, "33"@, "31"@, "31"@, "35"@, "34"@]);
    assert(e@ == row(seq!["macos"@, "mac os"@, "darwin"@], seq!["32"@, "33"@, "31"@, "31"@, "35"@, "34"@], Some("33"@), Some("32"@)));
    r.push(e);
    let e = entry(vec!["windows", "windows_10"], vec!["36", "34"], Some("34"), Some("36"));
    assert(e@.names =~= seq!["windows"@, "windows_10"@]);
    assert(e@.colors =~= seq!["36"@, "34"@]);
    assert(e@ == row(seq!["windows"@, "windows_10"@], seq!["36"@, "34"@], Some("34"@), Some("36"@)));
    r.push(e);
    let e = entry(vec!["windows_11"], vec!["34", "34"], Some("34"), Some("34"));
    assert(e@.names =~= seq!["windows_11"@]);
    assert(e@.colors =~= seq!["34"@, "34"@]);
    assert(e@ == row(seq!["windows_11"@], seq!["34"@, "34"@], Some("34"@), Some("34"@)));
    r.push(e);
    let e = entry(vec!["linuxmint", "linux mint", "mint"], vec!["32", "37"], Some("32"), None);
    assert(e@.names =~= seq!["linuxmint"@, "linux mint"@, "mint"@]);
    assert(e@.colors =~= seq!["32"@, "37"@]);
    assert(e@ == row(seq!["linuxmint"@, "linux mint"@, "mint"@], seq!["32"@, "37"@], Some("32"@), None));
    r.push(e);
    let e = entry(vec!["manjaro"], vec!["32"], None, None);
    assert(e@.names =~= seq!["manjaro"@]);
    assert(e@.colors =~= seq!["32"@]);
    assert(e@ == row(seq!["manjaro"@], seq!["32"@], None, None));
    r.push(e);
    let e = entry(vec!["proxmox"], vec!["37", "31"], Some("31"), Some("37"));
    assert(e@.names =~= seq!["proxmox"@]);
    assert(e@.colors =~= seq!["37"@, "31"@]);
    assert(e@ == row(seq!["proxmox"@], seq!["37"@, "31"@], Some("31"@), Some("37"@)));
    r.push(e);
    let e = entry(vec!["nixos"], vec!["34", "36"], Some("34"), None);
    assert(e@.names =~= seq!["nixos"@]);
    assert(e@.colors =~= seq!["34"@, "36"@]);
    assert(e@ == row(seq!["nixos"@], seq!["34"@, "36"@], Some("34"@), None));
    r.push(e);
    assert(r@.map_values(|e: LogoColorEntry| e@) =~= logo_color_table());
    r
}

} // verus!
