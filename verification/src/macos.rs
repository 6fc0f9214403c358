//! macOS: the distribution, the GPU name from `ioreg` and `system_profiler`, and
//! the root volume from `df`.
use vstd::prelude::*;
use crate::config::opt_view;
use crate::linux::{body_lines, root_entry, root_entry_ok};
use crate::storage::{df_line_spec, format_ghz, ghz_text_spec, parse_df_line_chars};
use crate::system::{os_name, os_name_spec, DistroInfo, StorageInfo};
use crate::text::{
    chars_of, contains_seq, contains_str, decimal, eq_str, ends_with_str, extend_str, find_first,
    find_str, has_suffix, join, join_with, lemma_find_first, lines, lines_of, lossy_string,
    push_decimal, remove_all, remove_all_str, slice_chars, string_of, trim, trim_chars, trim_str,
    utf8_lossy, utf8_str, views,
};

verus! {

/// The distribution on macOS: named after the OS type and version, with the logo
/// id `macos`.
pub fn detect_distro(os_type: &str, version: &str) -> (d: DistroInfo)
    ensures
        d.name@ == os_name_spec(os_type@, version@),
        d.id@ == "macos"@,
{
    DistroInfo { name: os_name(os_type, version), id: "macos".to_owned() }
}

/// The GPU model of an `ioreg` line `key = value`: when the key names a model and
/// the value mentions `Apple`, `display` or `GPU`, the trimmed value without
/// quotes.
pub open spec fn ioreg_line_model(line: Seq<char>) -> Option<Seq<char>> {
    match find_first(line, "="@) {
        Some(i) => {
            let key = line.take(i);
            let value = line.skip(i + 1);
            if contains_seq(key, "model"@) && (contains_seq(value, "Apple"@) || contains_seq(
                value,
                "display"@,
            ) || contains_seq(value, "GPU"@)) {
                Some(remove_all(trim(value), "\""@))
            } else {
                None
            }
        },
        None => None,
    }
}

/// The model of the first line that has one.
pub open spec fn first_ioreg_model(ls: Seq<Seq<char>>) -> Option<Seq<char>>
    decreases ls.len(),
{
    if ls.len() == 0 {
        None
    } else {
        match ioreg_line_model(ls[0]) {
            Some(m) => Some(m),
            None => first_ioreg_model(ls.drop_first()),
        }
    }
}

fn ioreg_model_of_line(line: &Vec<char>) -> (r: Option<Vec<char>>)
    ensures
        match r {
            Some(v) => ioreg_line_model(line@) == Some(v@),
            None => ioreg_line_model(line@) is None,
        },
{
    proof {
        reveal_strlit("=");
        reveal_strlit("\"");
        lemma_find_first(line@, "="@);
    }
    match find_str(line, "=") {
        Some(i) => {
            let key = slice_chars(line, 0, i);
            let value = slice_chars(line, i + 1, line.len());
            assert(value@ == line@.skip(i + 1));
            if contains_str(&key, "model") && (contains_str(&value, "Apple") || contains_str(
                &value,
                "display",
            ) || contains_str(&value, "GPU")) {
                let t = trim_chars(&value);
                Some(remove_all_str(&t, "\""))
            } else {
                None
            }
        },
        None => None,
    }
}

/// The GPU model in `ioreg -r -c IOPCIDevice` output, if a line names one.
pub fn parse_ioreg_output(stdout: &[u8]) -> (r: Option<String>)
    ensures
        opt_view(r) == first_ioreg_model(lines_of(utf8_lossy(stdout@))),
{
    let text = lossy_string(stdout);
    let ls = lines(&chars_of(text.as_str()));
    let ghost lv = views(ls@);
    let mut i: usize = 0;
    assert(lv.skip(0) == lv);
    while i < ls.len()
        invariant
            i <= ls.len(),
            lv == views(ls@),
            lv == lines_of(utf8_lossy(stdout@)),
            first_ioreg_model(lv) == first_ioreg_model(lv.skip(i as int)),
        decreases ls.len() - i,
    {
        assert(lv.skip(i as int)[0] == ls@[i as int]@);
        assert(lv.skip(i as int).drop_first() == lv.skip(i + 1));
        match ioreg_model_of_line(&ls[i]) {
            Some(m) => {
                return Some(string_of(&m));
            },
            None => {},
        }
        i = i + 1;
    }
    None
}

/// `{model}`, then ` ({cores} cores` and `, {clock})` or `)` when the core count
/// is known; `Unknown` for a missing model.
pub open spec fn gpu_details_spec(
    model: Option<Seq<char>>,
    cores: Option<nat>,
    clock: Option<Seq<char>>,
) -> Seq<char> {
    let m = match model {
        Some(x) => x,
        None => "Unknown"@,
    };
    match cores {
        Some(c) => m + " ("@ + decimal(c) + " cores"@ + match clock {
            Some(f) => ", "@ + f + ")"@,
            None => ")"@,
        },
        None => m,
    }
}

pub open spec fn opt_nat(o: Option<u64>) -> Option<nat> {
    match o {
        Some(x) => Some(x as nat),
        None => None,
    }
}

pub open spec fn opt_seq(o: Option<&str>) -> Option<Seq<char>> {
    match o {
        Some(s) => Some(s@),
        None => None,
    }
}

/// The GPU description from the fields of the first display in
/// `system_profiler SPDisplaysDataType -json`: its model, core count and clock.
pub fn format_gpu_details(model: Option<&str>, cores: Option<u64>, clock: Option<&str>) -> (r:
    String)
    ensures
        r@ == gpu_details_spec(opt_seq(model), opt_nat(cores), opt_seq(clock)),
{
    let mut out: Vec<char> = match model {
        Some(m) => chars_of(m),
        None => chars_of("Unknown"),
    };
    match cores {
        Some(c) => {
            extend_str(&mut out, " (");
            push_decimal(&mut out, c);
            extend_str(&mut out, " cores");
            match clock {
                Some(f) => {
                    extend_str(&mut out, ", ");
                    extend_str(&mut out, f);
                    extend_str(&mut out, ")");
                },
                None => extend_str(&mut out, ")"),
            }
        },
        None => {},
    }
    string_of(&out)
}

/// A JSON document as the GPU probe reads it: numbers are kept as the `u64` they
/// are, or `None` for any other number; an object keeps its members in order.
#[derive(Debug)]
pub enum JsonValue {
    Null,
    Bool(bool),
    Number(Option<u64>),
    Str(String),
    Array(Vec<JsonValue>),
    Object(Vec<(String, JsonValue)>),
}

/// A JSON document of serde_json, carried through unread by Verus.
#[verifier::external_type_specification]
#[verifier::external_body]
pub struct ExJsonValue(serde_json::Value);

/// serde_json's `Value`, variant by variant, as a `JsonValue`; a number as what
/// `Number::as_u64` gives. Nothing is stated of the result here: what the bytes
/// parse to is named by `json_document`.
#[verifier::external_body]
fn json_value_of(v: &serde_json::Value) -> (r: JsonValue) {
    match v {
        serde_json::Value::Null => JsonValue::Null,
        serde_json::Value::Bool(b) => JsonValue::Bool(*b),
        serde_json::Value::Number(n) => JsonValue::Number(n.as_u64()),
        serde_json::Value::String(s) => JsonValue::Str(s.clone()),
        serde_json::Value::Array(a) => JsonValue::Array(a.iter().map(json_value_of).collect()),
        serde_json::Value::Object(m) => JsonValue::Object(
            m.iter().map(|(k, x)| (k.clone(), json_value_of(x))).collect(),
        ),
    }
}

/// What serde_json reads from the bytes, as a `JsonValue`: `None` where they hold
/// no JSON document.
pub uninterp spec fn json_document(bytes: Seq<u8>) -> Option<JsonValue>;

/// serde_json `from_slice::<Value>`, converted by `json_value_of`. The result is
/// named `json_document`: it depends on the bytes alone.
#[verifier::external_body]
fn json_from_slice(bytes: &[u8]) -> (r: Option<JsonValue>)
    ensures
        r == json_document(bytes@),
{
    match serde_json::from_slice::<serde_json::Value>(bytes) {
        Ok(v) => Some(json_value_of(&v)),
        Err(_) => None,
    }
}

/// The value of the first member named `key`, when `v` is an object that has one.
pub open spec fn member_spec(v: JsonValue, key: Seq<char>) -> Option<JsonValue> {
    match v {
        JsonValue::Object(ms) => first_member(ms@, key),
        _ => None,
    }
}

pub open spec fn first_member(ms: Seq<(String, JsonValue)>, key: Seq<char>) -> Option<JsonValue>
    decreases ms.len(),
{
    if ms.len() == 0 {
        None
    } else if ms[0].0@ == key {
        Some(ms[0].1)
    } else {
        first_member(ms.drop_first(), key)
    }
}

/// The text of a string member.
pub open spec fn str_member(v: JsonValue, key: Seq<char>) -> Option<Seq<char>> {
    match member_spec(v, key) {
        Some(JsonValue::Str(s)) => Some(s@),
        _ => None,
    }
}

/// The number of a member that is a `u64`.
pub open spec fn u64_member(v: JsonValue, key: Seq<char>) -> Option<nat> {
    match member_spec(v, key) {
        Some(JsonValue::Number(Some(n))) => Some(n as nat),
        _ => None,
    }
}

/// The GPU description in a `system_profiler SPDisplaysDataType -json` document:
/// the first element of the `SPDisplaysDataType` array, written from its
/// `sppci_model`, `spdisplays_gpu_core_count` and `spdisplays_gpu_core_clock`
/// members; `None` when there is no such array or it is empty.
pub open spec fn profiler_gpu_spec(doc: JsonValue) -> Option<Seq<char>> {
    match member_spec(doc, "SPDisplaysDataType"@) {
        Some(JsonValue::Array(gpus)) => if gpus@.len() > 0 {
            let gpu = gpus@[0];
            Some(
                gpu_details_spec(
                    str_member(gpu, "sppci_model"@),
                    u64_member(gpu, "spdisplays_gpu_core_count"@),
                    str_member(gpu, "spdisplays_gpu_core_clock"@),
                ),
            )
        } else {
            None
        },
        _ => None,
    }
}

/// The value of the first member named `key` of an object.
fn member<'a>(v: &'a JsonValue, key: &str) -> (r: Option<&'a JsonValue>)
    ensures
        match r {
            Some(x) => member_spec(*v, key@) == Some(*x),
            None => member_spec(*v, key@) is None,
        },
{
    match v {
        JsonValue::Object(ms) => {
            let mut i: usize = 0;
            assert(ms@.skip(0) == ms@);
            while i < ms.len()
                invariant
                    i <= ms.len(),
                    member_spec(*v, key@) == first_member(ms@, key@),
                    first_member(ms@, key@) == first_member(ms@.skip(i as int), key@),
                decreases ms.len() - i,
            {
                assert(ms@.skip(i as int)[0] == ms@[i as int]);
                assert(ms@.skip(i as int).drop_first() == ms@.skip(i + 1));
                if eq_str(&chars_of(ms[i].0.as_str()), key) {
                    return Some(&ms[i].1);
                }
                i = i + 1;
            }
            None
        },
        _ => None,
    }
}

fn str_of<'a>(v: Option<&'a JsonValue>) -> (r: Option<&'a str>)
    ensures
        opt_seq(r) == match v {
            Some(JsonValue::Str(s)) => Some(s@),
            _ => None::<Seq<char>>,
        },
{
    match v {
        Some(JsonValue::Str(s)) => Some(s.as_str()),
        _ => None,
    }
}

/// The GPU description in a `system_profiler SPDisplaysDataType -json` document
/// (see `profiler_gpu_spec`).
pub fn gpu_details_from_json(doc: &JsonValue) -> (r: Option<String>)
    ensures
        opt_view(r) == profiler_gpu_spec(*doc),
{
    proof {
        reveal_strlit("SPDisplaysDataType");
    }
    let gpus = match member(doc, "SPDisplaysDataType") {
        Some(JsonValue::Array(a)) => a,
        _ => return None,
    };
    if gpus.len() == 0 {
        return None;
    }
    let gpu = &gpus[0];
    let model = str_of(member(gpu, "sppci_model"));
    let cores = match member(gpu, "spdisplays_gpu_core_count") {
        Some(JsonValue::Number(Some(n))) => Some(*n),
        _ => None,
    };
    let clock = str_of(member(gpu, "spdisplays_gpu_core_clock"));
    Some(format_gpu_details(model, cores, clock))
}

/// The GPU description from the output of `system_profiler SPDisplaysDataType
/// -json`: the model, core count and clock of the first display; `None` where the
/// output is not JSON or lists no display.
pub fn parse_system_profiler_output(stdout: &[u8]) -> (r: Option<String>)
    ensures
        opt_view(r) == match json_document(stdout@) {
            Some(d) => profiler_gpu_spec(d),
            None => None,
        },
{
    match json_from_slice(stdout) {
        Some(doc) => gpu_details_from_json(&doc),
        None => None,
    }
}

/// The GPU names that the accelerator registry gave, joined by `, `.
pub fn join_gpu_names(names: &Vec<String>) -> (r: String)
    ensures
        r@ == join_with(crate::text::string_seq_views(names@), ", "@),
{
    let mut v: Vec<Vec<char>> = Vec::new();
    let mut i: usize = 0;
    while i < names.len()
        invariant
            i <= names.len(),
            views(v@) == crate::text::string_seq_views(names@).take(i as int),
        decreases names.len() - i,
    {
        let c = chars_of(names[i].as_str());
        let ghost before = v@;
        v.push(c);
        assert(views(v@) == views(before).push(c@));
        assert(crate::text::string_seq_views(names@).take(i + 1) == crate::text::string_seq_views(
            names@,
        ).take(i as int).push(names@[i as int]@));
        i = i + 1;
    }
    assert(crate::text::string_seq_views(names@).take(names.len() as int)
        == crate::text::string_seq_views(names@));
    string_of(&join(&v, ", "))
}

/// The root file system type from `stat -f %T /`: its trimmed output when that
/// is valid UTF-8, else `apfs`.
pub open spec fn mac_fs_spec(stat_stdout: Option<Seq<u8>>) -> Seq<char> {
    match stat_stdout {
        Some(b) => if vstd::utf8::valid_utf8(b) {
            trim(vstd::utf8::decode_utf8(b))
        } else {
            "apfs"@
        },
        None => "apfs"@,
    }
}

/// The sizes on the first `df` line that ends with ` /` and has them.
pub open spec fn first_root_df_sizes(ls: Seq<Seq<char>>) -> Option<(u64, u64)>
    decreases ls.len(),
{
    if ls.len() == 0 {
        None
    } else if has_suffix(ls[0], " /"@) && df_line_spec(ls[0]) is Some {
        df_line_spec(ls[0])
    } else {
        first_root_df_sizes(ls.drop_first())
    }
}

pub open spec fn opt_bytes(o: Option<&[u8]>) -> Option<Seq<u8>> {
    match o {
        Some(b) => Some(b@),
        None => None,
    }
}

/// The root volume from the outputs of `stat -f %T /` and `df -k /` (each when it
/// ran): one entry from the first line after the header that mounts `/` and has
/// sizes, or none.
pub fn collect(stat_stdout: Option<&[u8]>, df_stdout: Option<&[u8]>) -> (r: Vec<StorageInfo>)
    ensures
        match df_stdout {
            Some(out) => match first_root_df_sizes(body_lines(out@)) {
                Some((t, u)) => r.len() == 1 && root_entry_ok(
                    r[0],
                    t as nat,
                    u as nat,
                    mac_fs_spec(opt_bytes(stat_stdout)),
                ),
                None => r.len() == 0,
            },
            None => r.len() == 0,
        },
{
    let fs: Vec<char> = match stat_stdout {
        Some(b) => match utf8_str(b) {
            Some(s) => trim_str(s),
            None => chars_of("apfs"),
        },
        None => chars_of("apfs"),
    };
    let fs_type = string_of(&fs);
    let mut storage: Vec<StorageInfo> = Vec::new();
    match df_stdout {
        Some(out) => {
            let text = lossy_string(out);
            let ls = lines(&chars_of(text.as_str()));
            let ghost lv = views(ls@);
            if ls.len() > 0 {
                let mut i: usize = 1;
                assert(lv.skip(1).skip(0) == lv.skip(1));
                while i < ls.len()
                    invariant
                        1 <= i <= ls.len(),
                        lv == views(ls@),
                        lv == lines_of(utf8_lossy(out@)),
                        storage.len() == 0,
                        df_stdout == Some(out),
                        fs_type@ == mac_fs_spec(opt_bytes(stat_stdout)),
                        first_root_df_sizes(lv.skip(1)) == first_root_df_sizes(lv.skip(i as int)),
                    decreases ls.len() - i,
                {
                    assert(lv.skip(i as int)[0] == ls@[i as int]@);
                    assert(lv.skip(i as int).drop_first() == lv.skip(i + 1));
                    if ends_with_str(&ls[i], " /") {
                        match parse_df_line_chars(&ls[i]) {
                            Some((total_kb, used_kb)) => {
                                let e = root_entry(total_kb, used_kb, fs_type.as_str());
                                storage.push(e);
                                assert(storage@[0] == e);
                                assert(body_lines(out@) == lv.skip(1));
                                return storage;
                            },
                            None => {},
                        }
                    }
                    i = i + 1;
                }
            }
        },
        None => {},
    }
    storage
}


/// A clock rate in hertz as gigahertz with two decimals.
pub fn format_ghz_from_hz(freq_hz: u64) -> (r: String)
    ensures
        r@ == ghz_text_spec(freq_hz as nat, 1_000_000_000),
{
    format_ghz(freq_hz, 1_000_000_000)
}

/// The maximum CPU clock from the `sysctl` values `hw.cpufrequency_max` and
/// `hw.cpufrequency` (in hertz), the first that is known.
pub fn detect_cpu_max_frequency(max_hz: Option<u64>, current_hz: Option<u64>) -> (r: Option<String>)
    ensures
        match max_hz {
            Some(h) => r matches Some(s) && s@ == ghz_text_spec(h as nat, 1_000_000_000),
            None => match current_hz {
                Some(h) => r matches Some(s) && s@ == ghz_text_spec(h as nat, 1_000_000_000),
                None => r is None,
            },
        },
{
    match max_hz {
        Some(h) => Some(format_ghz_from_hz(h)),
        None => match current_hz {
            Some(h) => Some(format_ghz_from_hz(h)),
            None => None,
        },
    }
}

/// The number that a command printed: its trimmed output as an unsigned integer.
pub fn parse_frequency(stdout: &[u8]) -> (r: Option<u64>)
    ensures
        match r {
            Some(v) => crate::text::parse_unsigned(
                trim(utf8_lossy(stdout@)),
                10,
                0xffff_ffff_ffff_ffff,
            ) == Some(v as nat),
            None => crate::text::parse_unsigned(
                trim(utf8_lossy(stdout@)),
                10,
                0xffff_ffff_ffff_ffff,
            ) is None,
        },
{
    let text = lossy_string(stdout);
    let t = trim_str(text.as_str());
    crate::text::parse_uint(&t, 10, 0xffff_ffff_ffff_ffff)
}

} // verus!
