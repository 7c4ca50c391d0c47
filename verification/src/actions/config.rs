//! Showing the configuration in force, one setting per key.
use vstd::prelude::*;
use crate::text::{chars_of, string_of, owned, push_str, str_eq, str_views};
use crate::config::structs::{Config, BindMount, BindMountOptions, network_name, level_name};

verus! {

/// The keys shown when none are asked for, in order.
pub open spec fn default_config_keys() -> Seq<Seq<char>> {
    seq![
        "name"@, "net"@, "log_level"@, "bind"@, "mask"@, "no_default_binds"@, "storage_dir"@,
        "sandbox_dir"@, "upper_cwd"@, "overlay_cwd"@, "ignored"@, "config_files"@,
    ]
}

/// The keys shown when none are asked for.
pub fn default_config_keys_of() -> (r: Vec<String>)
    ensures
        str_views(r@) == default_config_keys(),
{
    let mut r: Vec<String> = Vec::new();
    r.push(owned("name"));
    r.push(owned("net"));
    r.push(owned("log_level"));
    r.push(owned("bind"));
    r.push(owned("mask"));
    r.push(owned("no_default_binds"));
    r.push(owned("storage_dir"));
    r.push(owned("sandbox_dir"));
    r.push(owned("upper_cwd"));
    r.push(owned("overlay_cwd"));
    r.push(owned("ignored"));
    r.push(owned("config_files"));
    assert(str_views(r@) =~= default_config_keys());
    r
}

/// Items joined with `,` between them.
pub open spec fn comma_joined(items: Seq<Seq<char>>) -> Seq<char>
    decreases items.len(),
{
    if items.len() == 0 {
        seq![]
    } else if items.len() == 1 {
        items[0]
    } else {
        comma_joined(items.drop_last()) + ","@ + items.last()
    }
}

/// Joins items with `,` between them.
pub fn join_commas(items: &Vec<String>) -> (r: String)
    ensures
        r@ == comma_joined(str_views(items@)),
{
    let ghost iv = str_views(items@);
    let mut out: Vec<char> = Vec::new();
    let mut i: usize = 0;
    while i < items.len()
        invariant
            i <= items.len(),
            iv == str_views(items@),
            out@ == comma_joined(iv.take(i as int)),
        decreases items.len() - i,
    {
        assert(iv.take(i + 1).drop_last() =~= iv.take(i as int));
        assert(iv[i as int] == items@[i as int]@);
        if i > 0 {
            out.push(',');
        }
        push_str(&mut out, items[i].as_str());
        proof {
            reveal_strlit(",");
            if i == 0 {
                assert(out@ =~= iv.take(1)[0]);
            } else {
                assert(out@ =~= comma_joined(iv.take(i as int)) + ","@ + iv[i as int]);
            }
        }
        i = i + 1;
    }
    assert(iv.take(items.len() as int) =~= iv);
    string_of(&out)
}

/// The arguments of the bind mounts that are not masks.
pub open spec fn bind_arguments(binds: Seq<BindMount>) -> Seq<Seq<char>>
    decreases binds.len(),
{
    if binds.len() == 0 {
        seq![]
    } else {
        let before = bind_arguments(binds.drop_last());
        if binds.last().options != BindMountOptions::Mask {
            before.push(binds.last().argument@)
        } else {
            before
        }
    }
}

/// The targets of the bind mounts that are masks.
pub open spec fn mask_targets(binds: Seq<BindMount>) -> Seq<Seq<char>>
    decreases binds.len(),
{
    if binds.len() == 0 {
        seq![]
    } else {
        let before = mask_targets(binds.drop_last());
        if binds.last().options == BindMountOptions::Mask {
            before.push(binds.last().target@)
        } else {
            before
        }
    }
}

/// The text of a flag: `true` or `false`.
pub open spec fn bool_text(b: bool) -> Seq<char> {
    if b {
        "true"@
    } else {
        "false"@
    }
}

fn bool_text_of(b: bool) -> (r: String)
    ensures
        r@ == bool_text(b),
{
    if b {
        owned("true")
    } else {
        owned("false")
    }
}

/// The arguments of the bind mounts that are not masks, or the targets of those that
/// are.
fn bind_texts(binds: &Vec<BindMount>, masks: bool) -> (r: Vec<String>)
    ensures
        str_views(r@) == if masks {
            mask_targets(binds@)
        } else {
            bind_arguments(binds@)
        },
{
    let mut r: Vec<String> = Vec::new();
    let mut i: usize = 0;
    while i < binds.len()
        invariant
            i <= binds.len(),
            str_views(r@) == if masks {
                mask_targets(binds@.take(i as int))
            } else {
                bind_arguments(binds@.take(i as int))
            },
        decreases binds.len() - i,
    {
        assert(binds@.take(i + 1).drop_last() =~= binds@.take(i as int));
        assert(binds@.take(i + 1).last() == binds@[i as int]);
        let is_mask = binds[i].options == BindMountOptions::Mask;
        if is_mask == masks {
            let ghost before = r@;
            let t = if masks {
                owned(binds[i].target.as_str())
            } else {
                owned(binds[i].argument.as_str())
            };
            r.push(t);
            assert(str_views(r@) =~= str_views(before).push(t@));
        }
        i = i + 1;
    }
    assert(binds@.take(binds.len() as int) =~= binds@);
    r
}

/// The setting that a key names, with the key's canonical spelling: the directory keys
/// may be written with `-` in place of `_`; `None` for an unknown key.
pub open spec fn config_entry(c: Config, key: Seq<char>) -> Option<(Seq<char>, Seq<char>)> {
    if key == "storage_dir"@ || key == "storage-dir"@ {
        Some(("storage_dir"@, c.storage_dir@))
    } else if key == "sandbox_dir"@ || key == "sandbox-dir"@ {
        Some(("sandbox_dir"@, c.sandbox_dir@))
    } else if key == "upper_cwd"@ || key == "upper-cwd"@ {
        Some(("upper_cwd"@, c.upper_cwd@))
    } else if key == "overlay_cwd"@ || key == "overlay-cwd"@ {
        Some(("overlay_cwd"@, c.overlay_cwd@))
    } else if key == "net"@ {
        Some(("net"@, network_name(c.net)))
    } else if key == "bind"@ {
        Some(("bind"@, comma_joined(bind_arguments(c.bind_mounts@))))
    } else if key == "mask"@ {
        Some(("mask"@, comma_joined(mask_targets(c.bind_mounts@))))
    } else if key == "no_default_binds"@ {
        Some(("no_default_binds"@, bool_text(c.no_default_binds)))
    } else if key == "name"@ {
        Some(("name"@, c.name@))
    } else if key == "log_level"@ {
        Some(("log_level"@, level_name(c.log_level)))
    } else if key == "ignored"@ {
        Some(("ignored"@, bool_text(c.ignored)))
    } else if key == "config_files"@ {
        Some(("config_files"@, comma_joined(str_views(c.config_files@))))
    } else {
        None
    }
}

/// The message for an unknown key.
pub open spec fn unknown_key_message(key: Seq<char>) -> Seq<char> {
    "Unknown key: "@ + key
}

/// The setting that `key` names, with the key's canonical spelling.
pub fn config_value(config: &Config, key: &String) -> (r: Result<(String, String), String>)
    ensures
        match config_entry(*config, key@) {
            Some((k, v)) => r matches Ok((a, b)) && a@ == k && b@ == v,
            None => r matches Err(e) && e@ == unknown_key_message(key@),
        },
{
    let k = key.as_str();
    if str_eq(k, "storage_dir") || str_eq(k, "storage-dir") {
        Ok((owned("storage_dir"), owned(config.storage_dir.as_str())))
    } else if str_eq(k, "sandbox_dir") || str_eq(k, "sandbox-dir") {
        Ok((owned("sandbox_dir"), owned(config.sandbox_dir.as_str())))
    } else if str_eq(k, "upper_cwd") || str_eq(k, "upper-cwd") {
        Ok((owned("upper_cwd"), owned(config.upper_cwd.as_str())))
    } else if str_eq(k, "overlay_cwd") || str_eq(k, "overlay-cwd") {
        Ok((owned("overlay_cwd"), owned(config.overlay_cwd.as_str())))
    } else if str_eq(k, "net") {
        Ok((owned("net"), config.net.to_string()))
    } else if str_eq(k, "bind") {
        Ok((owned("bind"), join_commas(&bind_texts(&config.bind_mounts, false))))
    } else if str_eq(k, "mask") {
        Ok((owned("mask"), join_commas(&bind_texts(&config.bind_mounts, true))))
    } else if str_eq(k, "no_default_binds") {
        Ok((owned("no_default_binds"), bool_text_of(config.no_default_binds)))
    } else if str_eq(k, "name") {
        Ok((owned("name"), owned(config.name.as_str())))
    } else if str_eq(k, "log_level") {
        Ok((owned("log_level"), config.log_level.as_str()))
    } else if str_eq(k, "ignored") {
        Ok((owned("ignored"), bool_text_of(config.ignored)))
    } else if str_eq(k, "config_files") {
        Ok((owned("config_files"), join_commas(&config.config_files)))
    } else {
        let mut m = chars_of("Unknown key: ");
        push_str(&mut m, k);
        Err(string_of(&m))
    }
}

/// The line shown for a setting: `key=value` when several settings are shown, the value
/// alone otherwise.
pub open spec fn config_line(key: Seq<char>, value: Seq<char>, multi_line: bool) -> Seq<char> {
    if multi_line {
        key + "="@ + value
    } else {
        value
    }
}

/// The line shown for a setting.
pub fn config_line_of(key: &String, value: &String, multi_line: bool) -> (r: String)
    ensures
        r@ == config_line(key@, value@, multi_line),
{
    if multi_line {
        let mut m = chars_of(key.as_str());
        push_str(&mut m, "=");
        push_str(&mut m, value.as_str());
        string_of(&m)
    } else {
        owned(value.as_str())
    }
}

/// The keys asked for, or the default keys where none are.
pub open spec fn requested_keys(keys: Option<Vec<String>>) -> Seq<Seq<char>> {
    match keys {
        Some(k) => str_views(k@),
        None => default_config_keys(),
    }
}

/// Whether `line` is what is shown for `key`: its canonical key, value and line.
pub open spec fn shown_for(c: Config, key: Seq<char>, line: (String, String, String), multi_line: bool) -> bool {
    match config_entry(c, key) {
        Some((k, v)) => line.0@ == k && line.1@ == v && line.2@ == config_line(k, v, multi_line),
        None => false,
    }
}

/// Whether `r` is what showing the keys `ks` gives: each key's line, several settings
/// as `key=value`, or the error of the first unknown key.
pub open spec fn lines_for(c: Config, ks: Seq<Seq<char>>, r: Result<Vec<(String, String, String)>, String>) -> bool {
    let multi_line = ks.len() > 1;
    match r {
        Ok(lines) => lines.len() == ks.len() && forall|i: int| 0 <= i < ks.len() ==>
            shown_for(c, ks[i], #[trigger] lines@[i], multi_line),
        Err(e) => exists|i: int| 0 <= i < ks.len() && #[trigger] config_entry(c, ks[i]) is None
            && e@ == unknown_key_message(ks[i])
            && forall|j: int| 0 <= j < i ==> #[trigger] config_entry(c, ks[j]) is Some,
    }
}

/// Whether `lines` and `err` are what showing the keys `ks` one by one gives: the line of
/// each key up to the first unknown one, and then the error of that key, if there is one.
pub open spec fn lines_until(c: Config, ks: Seq<Seq<char>>, lines: Seq<(String, String, String)>, err: Option<String>) -> bool {
    &&& lines.len() <= ks.len()
    &&& forall|i: int| 0 <= i < lines.len() ==> shown_for(c, ks[i], #[trigger] lines[i], ks.len() > 1)
    &&& match err {
        None => lines.len() == ks.len(),
        Some(e) => lines.len() < ks.len() && config_entry(c, ks[lines.len() as int]) is None
            && e@ == unknown_key_message(ks[lines.len() as int]),
    }
}

/// The lines shown for `keys`, one by one, up to the first unknown key, and the error
/// of that key.
fn lines_of_keys(config: &Config, keys: &Vec<String>) -> (r: (Vec<(String, String, String)>, Option<String>))
    ensures
        lines_until(*config, str_views(keys@), r.0@, r.1),
{
    let ghost ks = str_views(keys@);
    let multi_line = keys.len() > 1;
    let mut out: Vec<(String, String, String)> = Vec::new();
    let mut i: usize = 0;
    while i < keys.len()
        invariant
            i <= keys.len(),
            ks == str_views(keys@),
            multi_line == (keys.len() > 1),
            out.len() == i,
            forall|j: int| 0 <= j < i ==> shown_for(*config, ks[j], #[trigger] out@[j], multi_line),
        decreases keys.len() - i,
    {
        assert(ks[i as int] == keys@[i as int]@);
        let (k, v) = match config_value(config, &keys[i]) {
            Ok(kv) => kv,
            Err(e) => {
                return (out, Some(e));
            },
        };
        let line = config_line_of(&k, &v, multi_line);
        out.push((k, v, line));
        i = i + 1;
    }
    (out, None)
}

/// The keys asked for, or the default keys where none are given.
fn keys_or_default(keys: Option<Vec<String>>) -> (r: Vec<String>)
    ensures
        str_views(r@) == requested_keys(keys),
{
    match keys {
        Some(k) => k,
        None => default_config_keys_of(),
    }
}

/// The lines shown for `keys` (the default keys where none are given), one by one, up to
/// the first unknown key, and the error of that key, if there is one.
pub fn config_lines_until(config: &Config, keys: Option<Vec<String>>) -> (r: (Vec<(String, String, String)>, Option<String>))
    ensures
        lines_until(*config, requested_keys(keys), r.0@, r.1),
{
    let ks = keys_or_default(keys);
    lines_of_keys(config, &ks)
}

/// The lines shown for `keys`, or for the default keys where none are given.
pub fn config_lines(config: &Config, keys: Option<Vec<String>>) -> (r: Result<Vec<(String, String, String)>, String>)
    ensures
        lines_for(*config, requested_keys(keys), r),
{
    let ghost ks = requested_keys(keys);
    let (lines, err) = config_lines_until(config, keys);
    match err {
        None => Ok(lines),
        Some(e) => {
            proof {
                let i = lines.len() as int;
                assert forall|j: int| 0 <= j < i implies #[trigger] config_entry(*config, ks[j]) is Some by {
                    assert(shown_for(*config, ks[j], lines@[j], ks.len() > 1));
                }
                assert(config_entry(*config, ks[i]) is None);
            }
            Err(e)
        },
    }
}

} // verus!
