//! Resolving the configuration: layering files, environment and command line, then
//! filling in defaults and derived paths.
use vstd::prelude::*;
use crate::config::sources::Sources;
use crate::config::structs::{
    PartialConfig, PartialConfigView, Config, BindMount, BindMountOptions, option_named,
    unknown_option_message,
};
use crate::config::structs::{LogLevel, Network, level_named, network_named};
use crate::config::cli::Args;
use crate::encoding::{base32_encode, base32_nopad};
use crate::paths::{join, strip_prefix, strip_prefix_of, path_join};
use crate::text::{
    chars_of, string_of, push_str, has_char, owned, str_views, copy_chars, chars_eq,
    split_once, split_once_chars, list_items, comma_list, opt_view, str_eq,
};

verus! {

/// `o` where it is set, otherwise `b`.
pub open spec fn or_else<T>(o: Option<T>, b: Option<T>) -> Option<T> {
    if o is Some {
        o
    } else {
        b
    }
}

/// The bind mounts after adding `o`'s to `b`'s: bind mounts add up, they do not replace.
pub open spec fn added_binds(b: Option<Seq<Seq<char>>>, o: Option<Seq<Seq<char>>>) -> Option<
    Seq<Seq<char>>,
> {
    match (b, o) {
        (Some(x), Some(y)) => Some(x + y),
        (None, Some(y)) => Some(y),
        (_, None) => b,
    }
}

/// `base` with the settings of `over` laid on top: set settings replace, bind mounts add.
pub open spec fn merged(base: PartialConfigView, over: PartialConfigView) -> PartialConfigView {
    PartialConfigView {
        log_level: or_else(over.log_level, base.log_level),
        name: or_else(over.name, base.name),
        storage_dir: or_else(over.storage_dir, base.storage_dir),
        net: or_else(over.net, base.net),
        ignored: or_else(over.ignored, base.ignored),
        bind_mounts: added_binds(base.bind_mounts, over.bind_mounts),
        no_default_binds: or_else(over.no_default_binds, base.no_default_binds),
    }
}

/// `m` with `key` recorded as coming from `source` when `set`.
pub open spec fn note(m: Map<Seq<char>, Seq<char>>, set: bool, key: Seq<char>, source: Seq<char>) -> Map<
    Seq<char>,
    Seq<char>,
> {
    if set {
        m.insert(key, source)
    } else {
        m
    }
}

/// The sources after a merge: each setting that `over` sets now comes from `source`
/// (bind mounts are not recorded).
pub open spec fn merged_sources(m: Map<Seq<char>, Seq<char>>, over: PartialConfigView, source: Seq<char>) -> Map<
    Seq<char>,
    Seq<char>,
> {
    let m = note(m, over.log_level is Some, "log_level"@, source);
    let m = note(m, over.name is Some, "name"@, source);
    let m = note(m, over.storage_dir is Some, "storage_dir"@, source);
    let m = note(m, over.net is Some, "net"@, source);
    let m = note(m, over.ignored is Some, "ignored"@, source);
    note(m, over.no_default_binds is Some, "no_default_binds"@, source)
}

/// Appends the list `extra` to the optional list `target`, creating it if unset.
fn add_binds(target: &mut Option<Vec<String>>, extra: Vec<String>)
    ensures
        str_views_opt(*final(target)) == added_binds(str_views_opt(*old(target)), Some(str_views(extra@))),
{
    let mut extra = extra;
    let existing = target.take();
    match existing {
        Some(mut e) => {
            let ghost e0 = e@;
            let ghost x0 = extra@;
            e.append(&mut extra);
            assert(str_views(e@) =~= str_views(e0) + str_views(x0));
            *target = Some(e);
        },
        None => {
            *target = Some(extra);
        },
    }
}

/// The view of an optional list of strings.
pub open spec fn str_views_opt(v: Option<Vec<String>>) -> Option<Seq<Seq<char>>> {
    crate::text::opt_str_views(v)
}

/// Lays `override_config` on top of `base`: each setting it sets replaces the one in
/// `base` and is recorded in `sources` as coming from `source`; its bind mounts are
/// added after those of `base`.
pub fn merge_configs(
    base: &mut PartialConfig,
    sources: &mut Sources,
    override_config: PartialConfig,
    source: &str,
)
    ensures
        final(base)@ == merged(old(base)@, override_config@),
        final(sources)@ == merged_sources(old(sources)@, override_config@, source@),
{
    let ghost over = override_config@;
    if let Some(log_level) = override_config.log_level {
        base.log_level = Some(log_level);
        sources.insert("log_level", source);
    }
    if let Some(name) = override_config.name {
        base.name = Some(name);
        sources.insert("name", source);
    }
    if let Some(storage_dir) = override_config.storage_dir {
        base.storage_dir = Some(storage_dir);
        sources.insert("storage_dir", source);
    }
    if let Some(net) = override_config.net {
        base.net = Some(net);
        sources.insert("net", source);
    }
    if let Some(ignored) = override_config.ignored {
        base.ignored = Some(ignored);
        sources.insert("ignored", source);
    }
    if let Some(no_default_binds) = override_config.no_default_binds {
        base.no_default_binds = Some(no_default_binds);
        sources.insert("no_default_binds", source);
    }
    if let Some(bind_mounts) = override_config.bind_mounts {
        add_binds(&mut base.bind_mounts, bind_mounts);
    }
    assert(base@ =~= merged(old(base)@, over));
}

/// The message for a sandbox name that is refused.
pub open spec fn invalid_name_message(name: Seq<char>) -> Seq<char> {
    "Invalid sandbox name: "@ + name
}

/// Checks the sandbox name: a name holding `/` is refused.
pub fn validate_config(config: &Config) -> (r: Result<(), String>)
    ensures
        config.name@.contains('/') ==> (r matches Err(m) && m@ == invalid_name_message(config.name@)),
        !config.name@.contains('/') ==> r is Ok,
{
    let name = chars_of(config.name.as_str());
    if has_char(&name, '/') {
        let mut m = chars_of("Invalid sandbox name: ");
        push_str(&mut m, config.name.as_str());
        Err(string_of(&m))
    } else {
        Ok(())
    }
}

/// `s` with every repeated item left out, each kept item where it first occurs.
pub open spec fn first_occurrences(s: Seq<Seq<char>>) -> Seq<Seq<char>>
    decreases s.len(),
{
    if s.len() == 0 {
        s
    } else if s.drop_last().contains(s.last()) {
        first_occurrences(s.drop_last())
    } else {
        first_occurrences(s.drop_last()).push(s.last())
    }
}

/// Keeping first occurrences keeps exactly the items of `s`, each once.
pub proof fn lemma_first_occurrences(s: Seq<Seq<char>>)
    ensures
        first_occurrences(s).no_duplicates(),
        forall|x: Seq<char>| #[trigger] first_occurrences(s).contains(x) <==> s.contains(x),
        first_occurrences(s).len() <= s.len(),
    decreases s.len(),
{
    if s.len() > 0 {
        let d = s.drop_last();
        lemma_first_occurrences(d);
        assert forall|x: Seq<char>| #[trigger] s.contains(x) <== d.contains(x) by {
            if d.contains(x) {
                let i = choose|i: int| 0 <= i < d.len() && d[i] == x;
                assert(s[i] == x);
            }
        }
        assert forall|x: Seq<char>| #[trigger] s.contains(x) ==> d.contains(x) || x == s.last() by {
            if s.contains(x) {
                let i = choose|i: int| 0 <= i < s.len() && s[i] == x;
                if i < s.len() - 1 {
                    assert(d[i] == x);
                }
            }
        }
        if !d.contains(s.last()) {
            let f = first_occurrences(d);
            assert(f.push(s.last()).last() == s.last());
            assert forall|x: Seq<char>| #[trigger] f.push(s.last()).contains(x) <==> s.contains(x) by {
                if f.push(s.last()).contains(x) {
                    let i = choose|i: int| 0 <= i < f.push(s.last()).len() && f.push(s.last())[i] == x;
                    if i < f.len() {
                        assert(f[i] == x);
                    }
                }
                if f.contains(x) {
                    let i = choose|i: int| 0 <= i < f.len() && f[i] == x;
                    assert(f.push(s.last())[i] == x);
                }
                if x == s.last() {
                    assert(f.push(s.last())[f.len() as int] == x);
                }
            }
            assert forall|a: int, b: int|
                0 <= a < f.push(s.last()).len() && 0 <= b < f.push(s.last()).len() && a != b implies
                f.push(s.last())[a] != f.push(s.last())[b] by {
                if a == f.len() {
                    assert(f.contains(f[b]));
                } else if b == f.len() {
                    assert(f.contains(f[a]));
                }
            }
        }
    }
}

/// Leaves out repeated bind mounts, keeping the first of each in place.
pub fn dedup_bind_mounts(all: Vec<String>) -> (r: Vec<String>)
    ensures
        str_views(r@) == first_occurrences(str_views(all@)),
{
    let mut r: Vec<String> = Vec::new();
    let mut i: usize = 0;
    while i < all.len()
        invariant
            i <= all.len(),
            str_views(r@) == first_occurrences(str_views(all@).take(i as int)),
        decreases all.len() - i,
    {
        let ghost pre = str_views(all@).take(i as int);
        let item = chars_of(all[i].as_str());
        let mut seen = false;
        let mut j: usize = 0;
        proof {
            lemma_first_occurrences(pre);
        }
        while j < r.len()
            invariant
                j <= r.len(),
                i < all.len(),
                item@ == all@[i as int]@,
                str_views(r@) == first_occurrences(pre),
                forall|x: Seq<char>| #[trigger] first_occurrences(pre).contains(x) <==> pre.contains(x),
                seen <==> exists|k: int| 0 <= k < j && str_views(r@)[k] == item@,
            decreases r.len() - j,
        {
            let other = chars_of(r[j].as_str());
            assert(str_views(r@)[j as int] == other@);
            if chars_eq(&other, &item) {
                seen = true;
            }
            j = j + 1;
        }
        proof {
            let t = str_views(all@).take(i + 1);
            assert(t.drop_last() =~= pre);
            assert(t.last() == item@);
            if seen {
                let k = choose|k: int| 0 <= k < j && str_views(r@)[k] == item@;
                assert(first_occurrences(pre).contains(item@));
            } else {
                if pre.contains(item@) {
                    assert(first_occurrences(pre).contains(item@));
                    let k = choose|k: int| 0 <= k < str_views(r@).len() && str_views(r@)[k] == item@;
                    assert(false);
                }
            }
        }
        if !seen {
            let ghost before = r@;
            r.push(string_of(&item));
            assert(str_views(r@) =~= str_views(before).push(item@));
        }
        i = i + 1;
    }
    assert(str_views(all@).take(all.len() as int) =~= str_views(all@));
    r
}

/// The source path of a bind mount argument `source[:target[:options]]`.
pub open spec fn bind_source(a: Seq<char>) -> Seq<char> {
    match split_once(a, ':') {
        None => a,
        Some((p0, _)) => p0,
    }
}

/// The target path of a bind mount argument; a missing or empty target is the source.
pub open spec fn bind_target(a: Seq<char>) -> Seq<char> {
    match split_once(a, ':') {
        None => a,
        Some((p0, rest)) => {
            let t = match split_once(rest, ':') {
                None => rest,
                Some((t, _)) => t,
            };
            if t.len() == 0 {
                p0
            } else {
                t
            }
        },
    }
}

/// The options word of a bind mount argument: all after the second `:`, or `rw`.
pub open spec fn bind_options_word(a: Seq<char>) -> Seq<char> {
    match split_once(a, ':') {
        Some((_, rest)) => match split_once(rest, ':') {
            Some((_, o)) => o,
            None => "rw"@,
        },
        None => "rw"@,
    }
}

/// The source, target and options word of a bind mount argument
/// `source[:target[:options]]`.
pub fn bind_parts(argument: &str) -> (r: (String, String, String))
    ensures
        r.0@ == bind_source(argument@),
        r.1@ == bind_target(argument@),
        r.2@ == bind_options_word(argument@),
{
    let a = chars_of(argument);
    let (source, target, word) = match split_once_chars(&a, ':') {
        None => (copy_chars(&a), copy_chars(&a), chars_of("rw")),
        Some((p0, rest)) => {
            let (t, word) = match split_once_chars(&rest, ':') {
                None => (rest, chars_of("rw")),
                Some((t, o)) => (t, o),
            };
            let target = if t.len() == 0 {
                copy_chars(&p0)
            } else {
                t
            };
            (p0, target, word)
        },
    };
    (string_of(&source), string_of(&target), string_of(&word))
}

/// Reads a bind mount argument `source[:target[:options]]`.
pub fn parse_bind_mount(argument: &str) -> (r: Result<BindMount, String>)
    ensures
        match option_named(bind_options_word(argument@)) {
            Some(o) => r matches Ok(b) && b.source@ == bind_source(argument@) && b.target@
                == bind_target(argument@) && b.options == o && b.argument@ == argument@,
            None => r matches Err(m) && m@ == unknown_option_message(bind_options_word(argument@)),
        },
{
    let (source, target, word) = bind_parts(argument);
    let options = BindMountOptions::from_str(word.as_str())?;
    Ok(BindMount { source, target, options, argument: owned(argument) })
}

/// Reads each bind mount argument in order; the first one that does not read gives
/// the error.
pub open spec fn binds_readable(args: Seq<Seq<char>>) -> bool {
    forall|i: int| 0 <= i < args.len() ==> option_named(bind_options_word(#[trigger] args[i])) is Some
}

/// The index of the first bind mount argument that does not read.
pub open spec fn first_unreadable(args: Seq<Seq<char>>, i: int) -> bool {
    0 <= i < args.len() && option_named(bind_options_word(args[i])) is None && forall|j: int|
        0 <= j < i ==> option_named(bind_options_word(#[trigger] args[j])) is Some
}

/// Whether `b` is the bind mount that argument `a` describes.
pub open spec fn describes(b: BindMount, a: Seq<char>) -> bool {
    &&& b.source@ == bind_source(a)
    &&& b.target@ == bind_target(a)
    &&& Some(b.options) == option_named(bind_options_word(a))
    &&& b.argument@ == a
}

/// Reads bind mount arguments, in order.
pub fn parse_bind_mounts(args: &Vec<String>) -> (r: Result<Vec<BindMount>, String>)
    ensures
        binds_readable(str_views(args@)) ==> (r matches Ok(v) && v.len() == args.len() && forall|
            i: int,
        | 0 <= i < args.len() ==> describes(#[trigger] v@[i], args@[i]@)),
        !binds_readable(str_views(args@)) ==> (r matches Err(m) && exists|i: int|
            first_unreadable(str_views(args@), i) && m@ == unknown_option_message(
                bind_options_word(args@[i]@),
            )),
{
    let mut out: Vec<BindMount> = Vec::new();
    let mut i: usize = 0;
    while i < args.len()
        invariant
            i <= args.len(),
            out.len() == i,
            forall|j: int| 0 <= j < i ==> describes(#[trigger] out@[j], args@[j]@),
        decreases args.len() - i,
    {
        assert(str_views(args@)[i as int] == args@[i as int]@);
        match parse_bind_mount(args[i].as_str()) {
            Ok(b) => {
                out.push(b);
            },
            Err(m) => {
                proof {
                    assert forall|j: int| 0 <= j < i implies option_named(
                        bind_options_word(#[trigger] str_views(args@)[j]),
                    ) is Some by {
                        assert(describes(out@[j], args@[j]@));
                    }
                    assert(first_unreadable(str_views(args@), i as int));
                }
                return Err(m);
            },
        }
        i = i + 1;
    }
    proof {
        assert forall|j: int| 0 <= j < args.len() implies option_named(
            bind_options_word(#[trigger] str_views(args@)[j]),
        ) is Some by {
            assert(describes(out@[j], args@[j]@));
        }
    }
    Ok(out)
}

/// Settings read from the environment: each is the value of its variable, if set.
#[derive(Debug, Clone)]
pub struct EnvSettings {
    /// `SANDBOX_LOG_LEVEL`
    pub log_level: Option<String>,
    /// `SANDBOX_NAME`
    pub name: Option<String>,
    /// `SANDBOX_STORAGE_DIR`
    pub storage_dir: Option<String>,
    /// `SANDBOX_NET`
    pub net: Option<String>,
    /// `SANDBOX_IGNORED`
    pub ignored: Option<String>,
    /// `SANDBOX_BIND`
    pub bind: Option<String>,
    /// `SANDBOX_MASK`
    pub mask: Option<String>,
    /// `SANDBOX_NO_DEFAULT_BINDS`
    pub no_default_binds: Option<String>,
}

/// The boolean that a word names (`bool::from_str`): exactly `true` or `false`.
pub open spec fn bool_named(s: Seq<char>) -> Option<bool> {
    if s == "true"@ {
        Some(true)
    } else if s == "false"@ {
        Some(false)
    } else {
        None
    }
}

/// Reads a boolean, exactly `true` or `false`.
pub fn parse_bool(s: &str) -> (r: Option<bool>)
    ensures
        r == bool_named(s@),
{
    if str_eq(s, "true") {
        Some(true)
    } else if str_eq(s, "false") {
        Some(false)
    } else {
        None
    }
}

/// The bind mount argument that masks path `p`.
pub open spec fn mask_argument(p: Seq<char>) -> Seq<char> {
    p + ":"@ + p + ":mask"@
}

/// The bind mount arguments that mask each of `ps`.
pub open spec fn mask_arguments(ps: Seq<Seq<char>>) -> Seq<Seq<char>> {
    ps.map_values(|p: Seq<char>| mask_argument(p))
}

/// The bind mount arguments that mask each of `paths`.
pub fn masks_of(paths: &Vec<String>) -> (r: Vec<String>)
    ensures
        str_views(r@) == mask_arguments(str_views(paths@)),
{
    let mut r: Vec<String> = Vec::new();
    let mut i: usize = 0;
    while i < paths.len()
        invariant
            i <= paths.len(),
            str_views(r@) == mask_arguments(str_views(paths@)).take(i as int),
        decreases paths.len() - i,
    {
        let mut m = chars_of(paths[i].as_str());
        push_str(&mut m, ":");
        push_str(&mut m, paths[i].as_str());
        push_str(&mut m, ":mask");
        let ghost before = r@;
        assert(str_views(paths@)[i as int] == paths@[i as int]@);
        assert(m@ == mask_argument(paths@[i as int]@));
        r.push(string_of(&m));
        assert(str_views(r@) =~= str_views(before).push(m@));
        assert(str_views(r@) =~= mask_arguments(str_views(paths@)).take(i + 1));
        i = i + 1;
    }
    assert(mask_arguments(str_views(paths@)).take(paths.len() as int) =~= mask_arguments(
        str_views(paths@),
    ));
    r
}

/// The message when `--new` or `--last` meets a name from a file or the environment.
pub open spec fn exclusive_name_message() -> Seq<char> {
    "Cannot use --new or --last when name is specified in config file or environment variable"@
}

/// The error, if any, that the environment settings give, checked in order.
pub open spec fn env_error(
    p: PartialConfigView,
    e: EnvSettings,
    new_or_last: bool,
) -> Option<Seq<char>> {
    if new_or_last && (p.name is Some || e.name is Some) {
        Some(exclusive_name_message())
    } else if e.log_level is Some && level_named(e.log_level->0@) is None {
        Some("Invalid log level: "@ + e.log_level->0@)
    } else if e.net is Some && e.net->0@.len() > 0 && network_named(e.net->0@) is None {
        Some("Invalid network type: "@ + e.net->0@)
    } else if e.ignored is Some && bool_named(e.ignored->0@) is None {
        Some("Invalid value for SANDBOX_IGNORED: "@ + e.ignored->0@)
    } else {
        None
    }
}

/// Whether a variable is set to a nonempty value.
pub open spec fn set_nonempty(v: Option<String>) -> bool {
    v is Some && v->0@.len() > 0
}

/// The bind mounts from `SANDBOX_BIND`.
pub open spec fn env_binds(e: EnvSettings) -> Seq<Seq<char>> {
    match e.bind {
        Some(v) => list_items(v@),
        None => seq![],
    }
}

/// The mask arguments from `SANDBOX_MASK`.
pub open spec fn env_masks(e: EnvSettings) -> Seq<Seq<char>> {
    match e.mask {
        Some(v) => mask_arguments(list_items(v@)),
        None => seq![],
    }
}

/// `b` with the list `x` added, unless `x` is empty.
pub open spec fn add_nonempty(b: Option<Seq<Seq<char>>>, x: Seq<Seq<char>>) -> Option<Seq<Seq<char>>> {
    if x.len() > 0 {
        added_binds(b, Some(x))
    } else {
        b
    }
}

/// The partial configuration after the environment settings are laid on top.
pub open spec fn env_applied(p: PartialConfigView, e: EnvSettings, new_or_last: bool) -> PartialConfigView {
    PartialConfigView {
        log_level: if e.log_level is Some {
            level_named(e.log_level->0@)
        } else {
            p.log_level
        },
        name: if !new_or_last && set_nonempty(e.name) {
            Some(e.name->0@)
        } else {
            p.name
        },
        storage_dir: if set_nonempty(e.storage_dir) {
            Some(e.storage_dir->0@)
        } else {
            p.storage_dir
        },
        net: if set_nonempty(e.net) {
            network_named(e.net->0@)
        } else {
            p.net
        },
        ignored: if e.ignored is Some {
            bool_named(e.ignored->0@)
        } else {
            p.ignored
        },
        bind_mounts: add_nonempty(add_nonempty(p.bind_mounts, env_binds(e)), env_masks(e)),
        no_default_binds: if e.no_default_binds is Some {
            bool_named(e.no_default_binds->0@)
        } else {
            p.no_default_binds
        },
    }
}

/// The sources after the environment settings: each setting taken from the environment
/// is recorded as coming from `environment`.
pub open spec fn env_sources(
    m: Map<Seq<char>, Seq<char>>,
    e: EnvSettings,
    new_or_last: bool,
) -> Map<Seq<char>, Seq<char>> {
    let src = "environment"@;
    let m = note(m, e.log_level is Some, "log_level"@, src);
    let m = note(m, !new_or_last && set_nonempty(e.name), "name"@, src);
    let m = note(m, set_nonempty(e.storage_dir), "storage_dir"@, src);
    let m = note(m, set_nonempty(e.net), "net"@, src);
    let m = note(m, e.ignored is Some, "ignored"@, src);
    let m = note(m, env_binds(e).len() > 0 || env_masks(e).len() > 0, "bind_mounts"@, src);
    note(m, e.no_default_binds is Some, "no_default_binds"@, src)
}

/// Lays the environment settings on top of the settings from files. `new_or_last` tells
/// whether `--new` or `--last` was given, which rules out a name from a file or from
/// `SANDBOX_NAME`.
pub fn apply_environment(
    partial: &mut PartialConfig,
    sources: &mut Sources,
    env: &EnvSettings,
    new_or_last: bool,
) -> (r: Result<(), String>)
    requires
        env.no_default_binds matches Some(v) ==> bool_named(v@) is Some,
    ensures
        match env_error(old(partial)@, *env, new_or_last) {
            Some(m) => r matches Err(e) && e@ == m,
            None => r is Ok && final(partial)@ == env_applied(old(partial)@, *env, new_or_last)
                && final(sources)@ == env_sources(old(sources)@, *env, new_or_last),
        },
{
    let ghost p0 = partial@;
    let ghost s0 = sources@;
    if new_or_last && (partial.name.is_some() || env.name.is_some()) {
        return Err(owned(
            "Cannot use --new or --last when name is specified in config file or environment variable",
        ));
    }
    if let Some(v) = &env.log_level {
        match LogLevel::from_str(v.as_str()) {
            Some(l) => {
                partial.log_level = Some(l);
                sources.insert("log_level", "environment");
            },
            None => {
                let mut m = chars_of("Invalid log level: ");
                push_str(&mut m, v.as_str());
                return Err(string_of(&m));
            },
        }
    }
    if !new_or_last {
        if let Some(v) = &env.name {
            if chars_of(v.as_str()).len() > 0 {
                partial.name = Some(owned(v.as_str()));
                sources.insert("name", "environment");
            }
        }
    }
    if let Some(v) = &env.storage_dir {
        if chars_of(v.as_str()).len() > 0 {
            partial.storage_dir = Some(owned(v.as_str()));
            sources.insert("storage_dir", "environment");
        }
    }
    if let Some(v) = &env.net {
        if chars_of(v.as_str()).len() > 0 {
            match Network::from_str(v.as_str()) {
                Ok(n) => {
                    partial.net = Some(n);
                    sources.insert("net", "environment");
                },
                Err(_) => {
                    let mut m = chars_of("Invalid network type: ");
                    push_str(&mut m, v.as_str());
                    return Err(string_of(&m));
                },
            }
        }
    }
    if let Some(v) = &env.ignored {
        match parse_bool(v.as_str()) {
            Some(b) => {
                partial.ignored = Some(b);
                sources.insert("ignored", "environment");
            },
            None => {
                let mut m = chars_of("Invalid value for SANDBOX_IGNORED: ");
                push_str(&mut m, v.as_str());
                return Err(string_of(&m));
            },
        }
    }
    let ghost before_binds = partial@.bind_mounts;
    if let Some(v) = &env.bind {
        let items = comma_list(v.as_str());
        if items.len() > 0 {
            add_binds(&mut partial.bind_mounts, items);
            sources.insert("bind_mounts", "environment");
        }
    }
    let ghost mid_binds = partial@.bind_mounts;
    assert(mid_binds == add_nonempty(before_binds, env_binds(*env)));
    if let Some(v) = &env.mask {
        let items = comma_list(v.as_str());
        let masks = masks_of(&items);
        if masks.len() > 0 {
            add_binds(&mut partial.bind_mounts, masks);
            sources.insert("bind_mounts", "environment");
        }
    }
    if let Some(v) = &env.no_default_binds {
        match parse_bool(v.as_str()) {
            Some(b) => {
                partial.no_default_binds = Some(b);
                sources.insert("no_default_binds", "environment");
            },
            None => {},
        }
    }
    assert(partial@ =~= env_applied(p0, *env, new_or_last));
    assert(sources@ =~= env_sources(s0, *env, new_or_last));
    Ok(())
}

/// The partial configuration after the command line's log level and storage directory,
/// which come before the name since `--new` and `--last` need the storage directory.
pub open spec fn cli_early_applied(p: PartialConfigView, cli: Args) -> PartialConfigView {
    PartialConfigView {
        log_level: or_else(cli.log_level, p.log_level),
        storage_dir: or_else(opt_view(cli.storage_dir), p.storage_dir),
        ..p
    }
}

/// The sources after the command line's log level and storage directory.
pub open spec fn cli_early_sources(m: Map<Seq<char>, Seq<char>>, cli: Args) -> Map<Seq<char>, Seq<char>> {
    let m = note(m, cli.log_level is Some, "log_level"@, "cli"@);
    note(m, cli.storage_dir is Some, "storage_dir"@, "cli"@)
}

/// Lays the command line's log level and storage directory on top.
pub fn apply_cli_early(partial: &mut PartialConfig, sources: &mut Sources, cli: &Args)
    ensures
        final(partial)@ == cli_early_applied(old(partial)@, *cli),
        final(sources)@ == cli_early_sources(old(sources)@, *cli),
{
    let ghost p0 = partial@;
    if let Some(l) = cli.log_level {
        partial.log_level = Some(l);
        sources.insert("log_level", "cli");
    }
    if let Some(d) = &cli.storage_dir {
        partial.storage_dir = Some(owned(d.as_str()));
        sources.insert("storage_dir", "cli");
    }
    assert(partial@ =~= cli_early_applied(p0, *cli));
}

/// The name after the command line: the name made for `--new` or found for `--last`
/// (`special`), else `--name`, else the name so far.
pub open spec fn cli_name(p: Option<Seq<char>>, cli: Args, special: Option<String>) -> Option<Seq<char>> {
    if cli.new || cli.last {
        opt_view(special)
    } else {
        or_else(opt_view(cli.name), p)
    }
}

/// The partial configuration after the rest of the command line.
pub open spec fn cli_applied(p: PartialConfigView, cli: Args, special: Option<String>) -> PartialConfigView {
    PartialConfigView {
        name: cli_name(p.name, cli, special),
        net: or_else(cli.net, p.net),
        ignored: if cli.ignored {
            Some(true)
        } else {
            p.ignored
        },
        no_default_binds: if cli.no_default_binds {
            Some(true)
        } else {
            p.no_default_binds
        },
        bind_mounts: added_binds(
            added_binds(p.bind_mounts, crate::text::opt_str_views(cli.bind)),
            match cli.mask {
                Some(m) => Some(mask_arguments(str_views(m@))),
                None => None,
            },
        ),
        ..p
    }
}

/// The sources after the rest of the command line.
pub open spec fn cli_sources(m: Map<Seq<char>, Seq<char>>, cli: Args) -> Map<Seq<char>, Seq<char>> {
    let m = if cli.new {
        m.insert("name"@, "cli --new"@)
    } else if cli.last {
        m.insert("name"@, "cli --last"@)
    } else {
        note(m, cli.name is Some, "name"@, "cli"@)
    };
    let m = note(m, cli.net is Some, "net"@, "cli"@);
    let m = note(m, cli.ignored, "ignored"@, "cli"@);
    note(m, cli.no_default_binds, "no_default_binds"@, "cli"@)
}

/// Lays the rest of the command line on top: the name (`special` is the name made for
/// `--new` or found for `--last`), network, flags, bind mounts and masks. The command
/// line has the last word; its bind mounts and masks are added to the others.
pub fn apply_cli(partial: &mut PartialConfig, sources: &mut Sources, cli: &Args, special: Option<String>)
    requires
        (cli.new || cli.last) ==> special is Some,
    ensures
        final(partial)@ == cli_applied(old(partial)@, *cli, special),
        final(sources)@ == cli_sources(old(sources)@, *cli),
{
    let ghost p0 = partial@;
    if cli.new {
        partial.name = special;
        sources.insert("name", "cli --new");
    } else if cli.last {
        partial.name = special;
        sources.insert("name", "cli --last");
    } else if let Some(n) = &cli.name {
        partial.name = Some(owned(n.as_str()));
        sources.insert("name", "cli");
    }
    if let Some(n) = cli.net {
        partial.net = Some(n);
        sources.insert("net", "cli");
    }
    if cli.ignored {
        partial.ignored = Some(true);
        sources.insert("ignored", "cli");
    }
    if cli.no_default_binds {
        partial.no_default_binds = Some(true);
        sources.insert("no_default_binds", "cli");
    }
    if let Some(b) = &cli.bind {
        let copy = crate::text::copy_strings(b);
        add_binds(&mut partial.bind_mounts, copy);
    }
    if let Some(m) = &cli.mask {
        let masks = masks_of(m);
        add_binds(&mut partial.bind_mounts, masks);
    }
    assert(partial@ =~= cli_applied(p0, *cli, special));
}

/// `v` if set, else `d`.
pub open spec fn or_default<T>(v: Option<T>, d: T) -> T {
    match v {
        Some(x) => x,
        None => d,
    }
}

/// The sandbox name that a partial configuration resolves to.
pub open spec fn resolved_name(p: PartialConfigView) -> Seq<char> {
    or_default(p.name, "sandbox"@)
}

/// The bind mount arguments in force: the defaults (unless turned off) then the
/// configured ones, each kept once where it first occurs.
pub open spec fn resolved_binds(p: PartialConfigView, defaults: Seq<Seq<char>>) -> Seq<Seq<char>> {
    let d = if or_default(p.no_default_binds, false) {
        seq![]
    } else {
        defaults
    };
    first_occurrences(d + or_default(p.bind_mounts, seq![]))
}

/// A directory under the sandbox's own directory for the current directory: the
/// sandbox directory, then `layer`, then the mount point's base32 name, then the current
/// directory relative to its mount point.
pub open spec fn layer_cwd(
    storage: Seq<char>,
    name: Seq<char>,
    layer: Seq<char>,
    mount_point: Seq<char>,
    rel: Seq<char>,
) -> Seq<char> {
    join(join(join(join(storage, name), layer), base32_nopad(mount_point)), rel)
}

/// The sources once defaults are filled in and derived settings recorded.
pub open spec fn final_sources(m: Map<Seq<char>, Seq<char>>, binds_empty: bool) -> Map<Seq<char>, Seq<char>> {
    let m = note(m, !m.contains_key("name"@), "name"@, "default"@);
    let m = note(m, !m.contains_key("net"@), "net"@, "default"@);
    let m = note(m, !m.contains_key("ignored"@), "ignored"@, "default"@);
    let m = note(m, !m.contains_key("no_default_binds"@), "no_default_binds"@, "default"@);
    let m = note(m, !m.contains_key("storage_dir"@), "storage_dir"@, "default"@);
    let m = note(m, !m.contains_key("sandbox_dir"@), "sandbox_dir"@, "derived from storage_dir"@);
    let m = m.insert("upper_cwd"@, "derived from storage_dir"@);
    let m = m.insert("overlay_cwd"@, "derived from storage_dir"@);
    note(m, binds_empty, "bind_mounts"@, "default"@)
}

/// The message where the current directory is not under its mount point.
pub open spec fn prefix_message() -> Seq<char> {
    "prefix not found"@
}

/// Resolves the configuration from the layered settings. `storage_dir` is the storage
/// directory chosen for them, `cwd` the current directory and `mount_point` the mount
/// point it lies on, `default_binds` the default bind mounts that exist on this host
/// and `config_files` the configuration files that were read.
pub fn finalize_config(
    partial: PartialConfig,
    sources: Sources,
    storage_dir: String,
    cwd: String,
    mount_point: String,
    default_binds: Vec<String>,
    config_files: Vec<String>,
) -> (r: Result<Config, String>)
    ensures
        strip_prefix(cwd@, mount_point@) is None ==> (r matches Err(m) && m@ == prefix_message()),
        strip_prefix(cwd@, mount_point@) matches Some(rel) ==> {
            let name = resolved_name(partial@);
            let binds = resolved_binds(partial@, str_views(default_binds@));
            if !binds_readable(binds) {
                r matches Err(m) && exists|i: int|
                    first_unreadable(binds, i) && m@ == unknown_option_message(bind_options_word(binds[i]))
            } else if name.contains('/') {
                r matches Err(m) && m@ == invalid_name_message(name)
            } else {
                r matches Ok(c) && {
                    &&& c.name@ == name
                    &&& c.net == or_default(partial@.net, Network::NoNetwork)
                    &&& c.ignored == or_default(partial@.ignored, false)
                    &&& c.no_default_binds == or_default(partial@.no_default_binds, false)
                    &&& c.log_level == or_default(partial@.log_level, LogLevel::Info)
                    &&& c.storage_dir@ == storage_dir@
                    &&& c.sandbox_dir@ == join(storage_dir@, name)
                    &&& c.upper_cwd@ == layer_cwd(storage_dir@, name, "upper"@, mount_point@, rel)
                    &&& c.overlay_cwd@ == layer_cwd(storage_dir@, name, "overlay"@, mount_point@, rel)
                    &&& c.bind_mounts.len() == binds.len()
                    &&& forall|i: int| 0 <= i < binds.len() ==> describes(#[trigger] c.bind_mounts@[i], binds[i])
                    &&& c.sources@ == final_sources(sources@, binds.len() == 0)
                    &&& c.config_files@ == config_files@
                }
            }
        },
{
    let cwd_c = chars_of(cwd.as_str());
    let mp_c = chars_of(mount_point.as_str());
    let rel = match strip_prefix_of(&cwd_c, &mp_c) {
        Some(r) => r,
        None => {
            return Err(owned("prefix not found"));
        },
    };
    let rel = string_of(&rel);
    let ghost p = partial@;
    let mut sources = sources;
    let name = match &partial.name {
        Some(n) => owned(n.as_str()),
        None => owned("sandbox"),
    };
    if !sources.contains_key("name") {
        sources.insert("name", "default");
    }
    let net = match partial.net {
        Some(n) => n,
        None => Network::NoNetwork,
    };
    if !sources.contains_key("net") {
        sources.insert("net", "default");
    }
    let ignored = match partial.ignored {
        Some(b) => b,
        None => false,
    };
    if !sources.contains_key("ignored") {
        sources.insert("ignored", "default");
    }
    let no_default_binds = match partial.no_default_binds {
        Some(b) => b,
        None => false,
    };
    if !sources.contains_key("no_default_binds") {
        sources.insert("no_default_binds", "default");
    }
    if !sources.contains_key("storage_dir") {
        sources.insert("storage_dir", "default");
    }
    let sandbox_dir = path_join(storage_dir.as_str(), name.as_str());
    if !sources.contains_key("sandbox_dir") {
        sources.insert("sandbox_dir", "derived from storage_dir");
    }
    let hash = base32_encode(mount_point.as_str());
    let upper_cwd = path_join(
        path_join(path_join(sandbox_dir.as_str(), "upper").as_str(), hash.as_str()).as_str(),
        rel.as_str(),
    );
    sources.insert("upper_cwd", "derived from storage_dir");
    let overlay_cwd = path_join(
        path_join(path_join(sandbox_dir.as_str(), "overlay").as_str(), hash.as_str()).as_str(),
        rel.as_str(),
    );
    sources.insert("overlay_cwd", "derived from storage_dir");
    let mut all: Vec<String> = Vec::new();
    if !no_default_binds {
        all = default_binds;
    }
    let ghost first_part = str_views(all@);
    if let Some(b) = partial.bind_mounts {
        let mut b = b;
        let ghost bv = str_views(b@);
        all.append(&mut b);
        assert(str_views(all@) =~= first_part + bv);
    } else {
        assert(str_views(all@) =~= first_part + seq![]);
    }
    let binds = dedup_bind_mounts(all);
    if binds.len() == 0 {
        sources.insert("bind_mounts", "default");
    }
    let bind_mounts = parse_bind_mounts(&binds)?;
    let config = Config {
        log_level: match partial.log_level {
            Some(l) => l,
            None => LogLevel::Info,
        },
        name,
        storage_dir,
        sandbox_dir,
        upper_cwd,
        overlay_cwd,
        net,
        sources,
        ignored,
        bind_mounts,
        no_default_binds,
        config_files,
    };
    validate_config(&config)?;
    Ok(config)
}

/// A partial configuration that sets nothing.
pub open spec fn unset_config() -> PartialConfigView {
    PartialConfigView {
        log_level: None,
        name: None,
        storage_dir: None,
        net: None,
        ignored: None,
        bind_mounts: None,
        no_default_binds: None,
    }
}

/// Laying a configuration that sets nothing over another changes nothing.
pub proof fn lemma_merge_unset(base: PartialConfigView)
    ensures
        merged(base, unset_config()) == base,
{
}

/// A setting that the configuration laid on top sets wins; one that it leaves unset keeps
/// the value underneath; bind mounts add up, the top's after the bottom's.
pub proof fn lemma_merge_top_wins(base: PartialConfigView, over: PartialConfigView)
    ensures
        over.name is Some ==> merged(base, over).name == over.name,
        over.name is None ==> merged(base, over).name == base.name,
        over.log_level is Some ==> merged(base, over).log_level == over.log_level,
        over.storage_dir is Some ==> merged(base, over).storage_dir == over.storage_dir,
        over.net is Some ==> merged(base, over).net == over.net,
        over.ignored is Some ==> merged(base, over).ignored == over.ignored,
        over.no_default_binds is Some ==> merged(base, over).no_default_binds == over.no_default_binds,
        (base.bind_mounts is Some && over.bind_mounts is Some) ==> merged(base, over).bind_mounts
            == Some(base.bind_mounts->0 + over.bind_mounts->0),
{
}

/// Merging configuration files one after another does not depend on how the merges are
/// grouped: laying `b` then `c` over `a` is laying (`c` over `b`) over `a`.
pub proof fn lemma_merge_associative(a: PartialConfigView, b: PartialConfigView, c: PartialConfigView)
    ensures
        merged(merged(a, b), c) == merged(a, merged(b, c)),
{
    match (a.bind_mounts, b.bind_mounts, c.bind_mounts) {
        (Some(x), Some(y), Some(z)) => {
            assert((x + y) + z =~= x + (y + z));
        },
        _ => {},
    }
}

} // verus!
