//! User configuration: which lines to show and which colors to use.
use vstd::prelude::*;

verus! {

/// The settings read from `config.json`. Every field is optional; a missing
/// `show_*` field means the line is shown.
pub struct Config {
    pub show_distro: Option<bool>,
    pub show_distro_id: Option<bool>,
    pub show_kernel: Option<bool>,
    pub show_cpu: Option<bool>,
    pub show_gpu: Option<bool>,
    pub show_memory: Option<bool>,
    pub show_swap: Option<bool>,
    pub show_local_ip: Option<bool>,
    pub show_battery: Option<bool>,
    pub show_storage: Option<bool>,
    pub show_uptime: Option<bool>,
    pub logo_color: Option<String>,
    pub color: Option<String>,
    pub color_keys: Option<String>,
    pub color_title: Option<String>,
    pub box_outline_color: Option<String>,
    pub show_user_host: Option<bool>,
}

/// The characters of an optional string.
pub open spec fn opt_view(o: Option<String>) -> Option<Seq<char>> {
    match o {
        Some(s) => Some(s@),
        None => None,
    }
}

/// Whether a line whose setting is `flag` is shown: unless it is set to `false`.
pub open spec fn shown(flag: Option<bool>) -> bool {
    match flag {
        Some(b) => b,
        None => true,
    }
}

/// `flag.unwrap_or(true)`.
pub fn is_shown(flag: Option<bool>) -> (r: bool)
    ensures
        r == shown(flag),
{
    match flag {
        Some(b) => b,
        None => true,
    }
}

impl Default for Config {
    /// Every line shown; the logo keeps its distribution's palette and every color
    /// is chosen automatically.
    fn default() -> (c: Self)
        ensures
            c.show_distro == Some(true),
            c.show_distro_id == Some(true),
            c.show_kernel == Some(true),
            c.show_cpu == Some(true),
            c.show_gpu == Some(true),
            c.show_memory == Some(true),
            c.show_swap == Some(true),
            c.show_local_ip == Some(true),
            c.show_battery == Some(true),
            c.show_storage == Some(true),
            c.show_uptime == Some(true),
            c.logo_color is None,
            c.color is None,
            c.color_keys is None,
            c.color_title is None,
            c.box_outline_color is None,
            c.show_user_host == Some(true),
    {
        Config {
            show_distro: Some(true),
            show_distro_id: Some(true),
            show_kernel: Some(true),
            show_cpu: Some(true),
            show_gpu: Some(true),
            show_memory: Some(true),
            show_swap: Some(true),
            show_local_ip: Some(true),
            show_battery: Some(true),
            show_storage: Some(true),
            show_uptime: Some(true),
            logo_color: None,
            color: None,
            color_keys: None,
            color_title: None,
            box_outline_color: None,
            show_user_host: Some(true),
        }
    }
}

} // verus!
