//! Windows: the GPU lines and the local disks that `wmic` lists.
use vstd::prelude::*;
use crate::linux::body_lines;
use crate::storage::{calc_percent, format_bytes, format_bytes_spec, percent_spec};
use crate::system::StorageInfo;
use crate::text::{
    chars_of, decimal, eq_str, extend_chars, extend_str, lines, lossy_string, parse_uint,
    parse_unsigned, push_decimal, sorted_unique, split_nonempty, split_words, str_to_uppercase,
    string_of, string_seq_views, strictly_sorted, strings_of, trim, trim_chars, uppercase,
    utf8_lossy, views, Sep,
};

verus! {

/// The GPU lines: `GPU: Unknown` for none, `GPU: {name}` for one, else the first
/// as `GPU: {name}` and the `i`-th (from 2) as `GPU {i}: {name}`, one per line.
pub open spec fn gpu_lines_spec(names: Seq<Seq<char>>) -> Seq<char>
    decreases names.len(),
{
    if names.len() == 0 {
        "GPU: Unknown"@
    } else if names.len() == 1 {
        "GPU: "@ + names[0]
    } else {
        gpu_lines_spec(names.drop_last()) + "\n"@ + "GPU "@ + decimal(names.len()) + ": "@
            + names.last()
    }
}

/// The GPU summary for the display adapters found.
pub fn gpu_text(names: &Vec<String>) -> (r: String)
    ensures
        r@ == gpu_lines_spec(string_seq_views(names@)),
{
    let ghost nv = string_seq_views(names@);
    if names.len() == 0 {
        return "GPU: Unknown".to_owned();
    }
    let mut out = chars_of("GPU: ");
    extend_str(&mut out, names[0].as_str());
    assert(nv.take(1) == seq![nv[0]]);
    let mut i: usize = 1;
    while i < names.len()
        invariant
            1 <= i <= names.len(),
            nv == string_seq_views(names@),
            out@ == gpu_lines_spec(nv.take(i as int)),
        decreases names.len() - i,
    {
        assert(nv.take(i + 1).drop_last() == nv.take(i as int));
        assert(nv.take(i + 1).last() == names@[i as int]@);
        extend_str(&mut out, "\n");
        extend_str(&mut out, "GPU ");
        push_decimal(&mut out, (i + 1) as u64);
        extend_str(&mut out, ": ");
        extend_str(&mut out, names[i].as_str());
        i = i + 1;
    }
    assert(nv.take(names.len() as int) == nv);
    string_of(&out)
}

/// The names in the lines of a listing: each line trimmed, blank ones left out, in
/// order.
pub open spec fn listed_names(ls: Seq<Seq<char>>) -> Seq<Seq<char>>
    decreases ls.len(),
{
    if ls.len() == 0 {
        Seq::empty()
    } else if trim(ls.last()).len() > 0 {
        listed_names(ls.drop_last()).push(trim(ls.last()))
    } else {
        listed_names(ls.drop_last())
    }
}

/// The display adapters in the output of `wmic path win32_VideoController get
/// name`: the names under the header line, sorted and each once.
pub fn video_controller_names(stdout: &[u8]) -> (r: Vec<String>)
    ensures
        strictly_sorted(string_seq_views(r@)),
        forall|x: Seq<char>|
            string_seq_views(r@).contains(x) <==> listed_names(body_lines(stdout@)).contains(x),
{
    let text = lossy_string(stdout);
    let ls = lines(&chars_of(text.as_str()));
    let ghost lv = views(ls@);
    let ghost body = if lv.len() == 0 {
        lv
    } else {
        lv.skip(1)
    };
    let mut names: Vec<Vec<char>> = Vec::new();
    if ls.len() > 0 {
        assert(body.take(0) == Seq::<Seq<char>>::empty());
        let mut i: usize = 1;
        while i < ls.len()
            invariant
                1 <= i <= ls.len(),
                lv == views(ls@),
                body == lv.skip(1),
                views(names@) == listed_names(body.take(i - 1)),
            decreases ls.len() - i,
        {
            assert(body.take(i as int).drop_last() == body.take(i - 1));
            assert(body.take(i as int).last() == ls@[i as int]@);
            let t = trim_chars(&ls[i]);
            if t.len() > 0 {
                let ghost before = names@;
                names.push(t);
                assert(views(names@) == views(before).push(t@));
            }
            i = i + 1;
        }
        assert(body.take(ls.len() - 1) == body);
    }
    strings_of(&sorted_unique(&names))
}

/// A number column of `wmic`, or 0 when it is not one.
pub open spec fn number_or_zero(s: Seq<char>) -> nat {
    match parse_unsigned(s, 10, 0xffff_ffff_ffff_ffff) {
        Some(v) => v,
        None => 0,
    }
}

/// What a disk entry shows: name, total, used, percent, file system, read-only.
pub open spec fn disk_view(e: StorageInfo) -> (Seq<char>, Seq<char>, Seq<char>, u8, Seq<char>, bool) {
    (e.name@, e.total@, e.used@, e.percent, e.fs_type@, e.readonly)
}

/// The disk that one `wmic` line describes: a line of at least five columns whose
/// fifth is `3` (a local disk); named by its first column in upper case with `/`,
/// sized from the second (total) and third (free) columns in bytes, with the
/// fourth as file system.
pub open spec fn wmic_line_disk(line: Seq<char>) -> Option<
    (Seq<char>, Seq<char>, Seq<char>, u8, Seq<char>, bool),
> {
    let c = split_words(line, Sep::Whitespace);
    if c.len() < 5 || c[4] != "3"@ || trim(c[0]).len() == 0 {
        None
    } else {
        let total = number_or_zero(c[1]);
        let free = number_or_zero(c[2]);
        let used: nat = if free > total {
            0
        } else {
            (total - free) as nat
        };
        Some(
            (
                uppercase(trim(c[0])) + "/"@,
                format_bytes_spec(total / 1024),
                format_bytes_spec(used / 1024),
                percent_spec(used, total) as u8,
                c[3],
                false,
            ),
        )
    }
}

pub open spec fn wmic_disks(ls: Seq<Seq<char>>) -> Seq<
    (Seq<char>, Seq<char>, Seq<char>, u8, Seq<char>, bool),
>
    decreases ls.len(),
{
    if ls.len() == 0 {
        Seq::empty()
    } else {
        let d = wmic_disks(ls.drop_last());
        match wmic_line_disk(ls.last()) {
            Some(e) => d.push(e),
            None => d,
        }
    }
}

fn number_column(s: &Vec<char>) -> (r: u64)
    ensures
        r as nat == number_or_zero(s@),
{
    match parse_uint(s, 10, 0xffff_ffff_ffff_ffff) {
        Some(v) => v,
        None => 0,
    }
}

fn disk_of_line(line: &Vec<char>) -> (r: Option<StorageInfo>)
    ensures
        match r {
            Some(e) => wmic_line_disk(line@) == Some(disk_view(e)),
            None => wmic_line_disk(line@) is None,
        },
{
    let c = split_nonempty(line, Sep::Whitespace);
    if c.len() < 5 {
        return None;
    }
    let ghost cv = views(c@);
    assert(cv[0] == c@[0]@ && cv[1] == c@[1]@ && cv[2] == c@[2]@ && cv[3] == c@[3]@ && cv[4]
        == c@[4]@);
    if !eq_str(&c[4], "3") {
        return None;
    }
    let name = trim_chars(&c[0]);
    if name.len() == 0 {
        return None;
    }
    let total = number_column(&c[1]);
    let free = number_column(&c[2]);
    let used = total.saturating_sub(free);
    let upper = str_to_uppercase(string_of(&name).as_str());
    let mut label = chars_of(upper.as_str());
    extend_str(&mut label, "/");
    Some(
        StorageInfo {
            name: string_of(&label),
            total: format_bytes(total / 1024),
            used: format_bytes(used / 1024),
            percent: calc_percent(used, total),
            fs_type: string_of(&c[3]),
            readonly: false,
        },
    )
}

pub open spec fn disk_views(s: Seq<StorageInfo>) -> Seq<
    (Seq<char>, Seq<char>, Seq<char>, u8, Seq<char>, bool),
> {
    s.map_values(|e: StorageInfo| disk_view(e))
}

/// The local disks in the output of `wmic logicaldisk get
/// name,size,freespace,filesystem,drivetype` (when it ran), in line order.
pub fn collect(wmic_stdout: Option<&[u8]>) -> (r: Vec<StorageInfo>)
    ensures
        disk_views(r@) == match wmic_stdout {
            Some(out) => wmic_disks(body_lines(out@)),
            None => Seq::empty(),
        },
{
    let mut storage: Vec<StorageInfo> = Vec::new();
    match wmic_stdout {
        Some(out) => {
            let text = lossy_string(out);
            let ls = lines(&chars_of(text.as_str()));
            let ghost lv = views(ls@);
            if ls.len() == 0 {
                return storage;
            }
            let ghost body = lv.skip(1);
            assert(body.take(0) == Seq::<Seq<char>>::empty());
            let mut i: usize = 1;
            while i < ls.len()
                invariant
                    1 <= i <= ls.len(),
                    lv == views(ls@),
                    body == lv.skip(1),
                    disk_views(storage@) == wmic_disks(body.take(i - 1)),
                decreases ls.len() - i,
            {
                assert(body.take(i as int).drop_last() == body.take(i - 1));
                assert(body.take(i as int).last() == ls@[i as int]@);
                match disk_of_line(&ls[i]) {
                    Some(e) => {
                        let ghost before = storage@;
                        storage.push(e);
                        assert(disk_views(storage@) == disk_views(before).push(disk_view(e)));
                    },
                    None => {},
                }
                i = i + 1;
            }
            assert(body.take(ls.len() - 1) == body);
            assert(body_lines(out@) == body);
        },
        None => {},
    }
    storage
}

} // verus!
