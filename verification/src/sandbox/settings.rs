//! The settings a running sandbox was started with, and checking them against the
//! configuration in force.
use vstd::prelude::*;
use crate::config::structs::{BindMount, BindMountOptions, Config, Network};
use crate::order::{lex_le, chars_le, lemma_lex_total, lemma_lex_trans, lemma_lex_antisym};
use crate::sandbox::mount_overlays::{MountHash, mount_view, mount_views};
use crate::sort::{
    TotalPreorder, stable_sorted, stable_sort, is_stable_sort, stable_sort_with, lemma_stable_sorted_views,
    lemma_stable_sort_exists, lemma_stable_sort_multiset, is_permutation, lemma_permuted_multiset,
};
use crate::text::{chars_of, string_of, push_str, owned, str_eq};

verus! {

/// The characters of a bind mount's source, target and argument, and its options.
pub open spec fn bind_view(b: BindMount) -> (Seq<char>, Seq<char>, BindMountOptions, Seq<char>) {
    (b.source@, b.target@, b.options, b.argument@)
}

/// The views of a list of bind mounts.
pub open spec fn bind_views(s: Seq<BindMount>) -> Seq<(Seq<char>, Seq<char>, BindMountOptions, Seq<char>)> {
    s.map_values(|b: BindMount| bind_view(b))
}

/// Bind mounts ordered by their argument.
pub struct ByArgument;

impl TotalPreorder<BindMount> for ByArgument {
    open spec fn le(&self, a: BindMount, b: BindMount) -> bool {
        lex_le(a.argument@, b.argument@)
    }

    fn le_exec(&self, a: &BindMount, b: &BindMount) -> (r: bool) {
        chars_le(&chars_of(a.argument.as_str()), &chars_of(b.argument.as_str()))
    }

    proof fn lemma_total(&self, a: BindMount, b: BindMount) {
        lemma_lex_total(a.argument@, b.argument@);
    }

    proof fn lemma_trans(&self, a: BindMount, b: BindMount, c: BindMount) {
        lemma_lex_trans(a.argument@, b.argument@, c.argument@);
    }
}

/// Whether a bind mount was given by the user, rather than being the sandbox's own
/// `data` mount.
pub open spec fn is_user_bind(b: BindMount) -> bool {
    b.argument@ != "data"@
}

/// The user's bind mounts, in their given order.
pub open spec fn user_bind_list(s: Seq<BindMount>) -> Seq<BindMount>
    decreases s.len(),
{
    if s.len() == 0 {
        s
    } else if is_user_bind(s.last()) {
        user_bind_list(s.drop_last()).push(s.last())
    } else {
        user_bind_list(s.drop_last())
    }
}

proof fn lemma_user_bind_list_views(s1: Seq<BindMount>, s2: Seq<BindMount>)
    requires
        bind_views(s1) == bind_views(s2),
    ensures
        bind_views(user_bind_list(s1)) == bind_views(user_bind_list(s2)),
    decreases s1.len(),
{
    assert(bind_views(s1).len() == s1.len());
    assert(bind_views(s2).len() == s2.len());
    if s1.len() > 0 {
        assert(bind_views(s1.drop_last()) =~= bind_views(s1).drop_last());
        assert(bind_views(s2.drop_last()) =~= bind_views(s2).drop_last());
        lemma_user_bind_list_views(s1.drop_last(), s2.drop_last());
        assert(bind_views(s1)[s1.len() - 1] == bind_views(s2)[s1.len() - 1]);
        let r1 = user_bind_list(s1.drop_last());
        let r2 = user_bind_list(s2.drop_last());
        assert(bind_views(r1.push(s1.last())) =~= bind_views(r1).push(bind_view(s1.last())));
        assert(bind_views(r2.push(s2.last())) =~= bind_views(r2).push(bind_view(s2.last())));
    }
}

/// The user's bind mounts, ordered by argument, ties in their given order.
pub open spec fn user_binds(s: Seq<BindMount>) -> Seq<BindMount> {
    stable_sorted(&ByArgument, user_bind_list(s))
}

/// The version of this package, recorded in the settings of each sandbox it starts.
pub open spec fn settings_version() -> Seq<char> {
    "0.1.0"@
}

/// The settings a running sandbox was started with.
#[derive(Debug, Clone, PartialEq)]
pub struct SandboxSettings {
    pub version: String,
    pub mounts: Vec<MountHash>,
    pub network: Network,
    pub bind_mounts: Vec<BindMount>,
}

/// A copy of a mount.
pub fn copy_mount(m: &MountHash) -> (r: MountHash)
    ensures
        mount_view(r) == mount_view(*m),
{
    MountHash { hash: owned(m.hash.as_str()), dir: owned(m.dir.as_str()) }
}

/// A copy of a bind mount.
pub fn copy_bind(b: &BindMount) -> (r: BindMount)
    ensures
        bind_view(r) == bind_view(*b),
{
    BindMount {
        source: owned(b.source.as_str()),
        target: owned(b.target.as_str()),
        options: b.options,
        argument: owned(b.argument.as_str()),
    }
}

fn copy_mounts(v: &[MountHash]) -> (r: Vec<MountHash>)
    ensures
        mount_views(r@) == mount_views(v@),
{
    let mut r: Vec<MountHash> = Vec::new();
    let mut i: usize = 0;
    while i < v.len()
        invariant
            i <= v.len(),
            mount_views(r@) == mount_views(v@).take(i as int),
        decreases v.len() - i,
    {
        let ghost before = r@;
        let m = copy_mount(&v[i]);
        r.push(m);
        assert(mount_views(r@) =~= mount_views(before).push(mount_view(m)));
        assert(mount_views(v@)[i as int] == mount_view(v@[i as int]));
        assert(mount_views(r@) =~= mount_views(v@).take(i + 1));
        i = i + 1;
    }
    assert(mount_views(v@).take(v.len() as int) =~= mount_views(v@));
    r
}

fn copy_binds(v: &Vec<BindMount>) -> (r: Vec<BindMount>)
    ensures
        bind_views(r@) == bind_views(v@),
{
    let mut r: Vec<BindMount> = Vec::new();
    let mut i: usize = 0;
    while i < v.len()
        invariant
            i <= v.len(),
            bind_views(r@) == bind_views(v@).take(i as int),
        decreases v.len() - i,
    {
        let ghost before = r@;
        let b = copy_bind(&v[i]);
        r.push(b);
        assert(bind_views(r@) =~= bind_views(before).push(bind_view(b)));
        assert(bind_views(v@)[i as int] == bind_view(v@[i as int]));
        assert(bind_views(r@) =~= bind_views(v@).take(i + 1));
        i = i + 1;
    }
    assert(bind_views(v@).take(v.len() as int) =~= bind_views(v@));
    r
}

fn mount_eq(a: &MountHash, b: &MountHash) -> (r: bool)
    ensures
        r == (mount_view(*a) == mount_view(*b)),
{
    str_eq(a.hash.as_str(), b.hash.as_str()) && str_eq(a.dir.as_str(), b.dir.as_str())
}

fn bind_eq(a: &BindMount, b: &BindMount) -> (r: bool)
    ensures
        r == (bind_view(*a) == bind_view(*b)),
{
    str_eq(a.source.as_str(), b.source.as_str()) && str_eq(a.target.as_str(), b.target.as_str())
        && a.options == b.options && str_eq(a.argument.as_str(), b.argument.as_str())
}

fn mounts_eq(a: &Vec<MountHash>, b: &Vec<MountHash>) -> (r: bool)
    ensures
        r == (mount_views(a@) == mount_views(b@)),
{
    if a.len() != b.len() {
        assert(mount_views(a@).len() != mount_views(b@).len());
        return false;
    }
    let mut i: usize = 0;
    while i < a.len()
        invariant
            a.len() == b.len(),
            i <= a.len(),
            forall|j: int| 0 <= j < i ==> mount_view(a@[j]) == mount_view(b@[j]),
        decreases a.len() - i,
    {
        if !mount_eq(&a[i], &b[i]) {
            assert(mount_views(a@)[i as int] != mount_views(b@)[i as int]);
            return false;
        }
        i = i + 1;
    }
    assert(mount_views(a@) =~= mount_views(b@));
    true
}

fn binds_eq(a: &Vec<BindMount>, b: &Vec<BindMount>) -> (r: bool)
    ensures
        r == (bind_views(a@) == bind_views(b@)),
{
    if a.len() != b.len() {
        assert(bind_views(a@).len() != bind_views(b@).len());
        return false;
    }
    let mut i: usize = 0;
    while i < a.len()
        invariant
            a.len() == b.len(),
            i <= a.len(),
            forall|j: int| 0 <= j < i ==> bind_view(a@[j]) == bind_view(b@[j]),
        decreases a.len() - i,
    {
        if !bind_eq(&a[i], &b[i]) {
            assert(bind_views(a@)[i as int] != bind_views(b@)[i as int]);
            return false;
        }
        i = i + 1;
    }
    assert(bind_views(a@) =~= bind_views(b@));
    true
}

/// Lines `    - item` for each item.
pub open spec fn bullet_lines(items: Seq<Seq<char>>) -> Seq<char>
    decreases items.len(),
{
    if items.len() == 0 {
        seq![]
    } else {
        bullet_lines(items.drop_last()) + "    - "@ + items.last() + "\n"@
    }
}

/// A header and its bullet lines, or nothing where there are no items.
pub open spec fn section(header: Seq<char>, items: Seq<Seq<char>>) -> Seq<char> {
    if items.len() == 0 {
        seq![]
    } else {
        header + bullet_lines(items)
    }
}

/// The name a network type is shown by in messages.
pub open spec fn network_shown(n: Network) -> Seq<char> {
    match n {
        Network::NoNetwork => "None"@,
        Network::Host => "Host"@,
    }
}

/// The message when the network type differs.
pub open spec fn network_changed_message(existing: Network, current: Network) -> Seq<char> {
    "Network configuration has changed. Existing: "@ + network_shown(existing) + ", Current: "@
        + network_shown(current)
        + ". Please stop existing sandbox to change network settings."@
}

/// The directories of the mounts in `a` that are not in `b`, in order.
pub open spec fn mounts_missing(a: Seq<(Seq<char>, Seq<char>)>, b: Seq<(Seq<char>, Seq<char>)>) -> Seq<Seq<char>>
    decreases a.len(),
{
    if a.len() == 0 {
        seq![]
    } else if b.contains(a.last()) {
        mounts_missing(a.drop_last(), b)
    } else {
        mounts_missing(a.drop_last(), b).push(a.last().1)
    }
}

/// The message when the mounts differ.
pub open spec fn mounts_changed_message(existing: Seq<(Seq<char>, Seq<char>)>, current: Seq<(Seq<char>, Seq<char>)>) -> Seq<char> {
    "Mount configuration has changed:\n"@ + section("  Removed mounts:\n"@, mounts_missing(existing, current))
        + section("  Added mounts:\n"@, mounts_missing(current, existing))
        + "Please stop the existing sandbox to change mount settings."@
}

/// The arguments of the bind mounts in `a` that are not in `b`, in order.
pub open spec fn binds_missing(
    a: Seq<(Seq<char>, Seq<char>, BindMountOptions, Seq<char>)>,
    b: Seq<(Seq<char>, Seq<char>, BindMountOptions, Seq<char>)>,
) -> Seq<Seq<char>>
    decreases a.len(),
{
    if a.len() == 0 {
        seq![]
    } else if b.contains(a.last()) {
        binds_missing(a.drop_last(), b)
    } else {
        binds_missing(a.drop_last(), b).push(a.last().3)
    }
}

/// The message when the user's bind mounts differ.
pub open spec fn binds_changed_message(
    existing: Seq<(Seq<char>, Seq<char>, BindMountOptions, Seq<char>)>,
    current: Seq<(Seq<char>, Seq<char>, BindMountOptions, Seq<char>)>,
) -> Seq<char> {
    "Bind mount configuration has changed:\n"@ + section(
        "  Removed bind mounts:\n"@,
        binds_missing(existing, current),
    ) + section("  Added bind mounts:\n"@, binds_missing(current, existing))
        + "Please stop the existing sandbox to change bind mount settings."@
}

fn push_section(m: &mut Vec<char>, header: &str, items: &Vec<String>)
    ensures
        final(m)@ == old(m)@ + section(header@, crate::text::str_views(items@)),
{
    if items.len() == 0 {
        assert(old(m)@ + seq![] =~= old(m)@);
        return;
    }
    push_str(m, header);
    let ghost start = m@;
    let mut i: usize = 0;
    while i < items.len()
        invariant
            i <= items.len(),
            m@ == start + bullet_lines(crate::text::str_views(items@).take(i as int)),
        decreases items.len() - i,
    {
        proof {
            let t = crate::text::str_views(items@).take(i + 1);
            assert(t.drop_last() =~= crate::text::str_views(items@).take(i as int));
            assert(t.last() == items@[i as int]@);
        }
        push_str(m, "    - ");
        push_str(m, items[i].as_str());
        push_str(m, "\n");
        i = i + 1;
        proof {
            let t = crate::text::str_views(items@).take(i as int);
            assert(m@ =~= start + bullet_lines(t));
        }
    }
    assert(crate::text::str_views(items@).take(items.len() as int) =~= crate::text::str_views(items@));
}

fn missing_mount_dirs(a: &Vec<MountHash>, b: &Vec<MountHash>) -> (r: Vec<String>)
    ensures
        crate::text::str_views(r@) == mounts_missing(mount_views(a@), mount_views(b@)),
{
    let ghost av = mount_views(a@);
    let ghost bv = mount_views(b@);
    let mut r: Vec<String> = Vec::new();
    let mut i: usize = 0;
    while i < a.len()
        invariant
            i <= a.len(),
            av == mount_views(a@),
            bv == mount_views(b@),
            crate::text::str_views(r@) == mounts_missing(av.take(i as int), bv),
        decreases a.len() - i,
    {
        let mut found = false;
        let mut j: usize = 0;
        while j < b.len()
            invariant
                i < a.len(),
                j <= b.len(),
                av == mount_views(a@),
                bv == mount_views(b@),
                found <==> exists|k: int| 0 <= k < j && bv[k] == av[i as int],
            decreases b.len() - j,
        {
            assert(bv[j as int] == mount_view(b@[j as int]));
            assert(av[i as int] == mount_view(a@[i as int]));
            if mount_eq(&b[j], &a[i]) {
                found = true;
            }
            j = j + 1;
        }
        proof {
            assert(av.take(i + 1).drop_last() =~= av.take(i as int));
            assert(av.take(i + 1).last() == av[i as int]);
            assert(found <==> bv.contains(av[i as int]));
            assert(av[i as int] == mount_view(a@[i as int]));
        }
        if !found {
            let ghost before = r@;
            r.push(owned(a[i].dir.as_str()));
            assert(crate::text::str_views(r@) =~= crate::text::str_views(before).push(a@[i as int].dir@));
        }
        i = i + 1;
    }
    assert(av.take(a.len() as int) =~= av);
    r
}

type BindTuple = (Seq<char>, Seq<char>, BindMountOptions, Seq<char>);

fn missing_bind_args(a: &Vec<BindMount>, b: &Vec<BindMount>) -> (r: Vec<String>)
    ensures
        crate::text::str_views(r@) == binds_missing(bind_views(a@), bind_views(b@)),
{
    let ghost av = bind_views(a@);
    let ghost bv = bind_views(b@);
    let mut r: Vec<String> = Vec::new();
    let mut i: usize = 0;
    while i < a.len()
        invariant
            i <= a.len(),
            av == bind_views(a@),
            bv == bind_views(b@),
            crate::text::str_views(r@) == binds_missing(av.take(i as int), bv),
        decreases a.len() - i,
    {
        let mut found = false;
        let mut j: usize = 0;
        while j < b.len()
            invariant
                i < a.len(),
                j <= b.len(),
                av == bind_views(a@),
                bv == bind_views(b@),
                found <==> exists|k: int| 0 <= k < j && bv[k] == av[i as int],
            decreases b.len() - j,
        {
            assert(bv[j as int] == bind_view(b@[j as int]));
            assert(av[i as int] == bind_view(a@[i as int]));
            if bind_eq(&b[j], &a[i]) {
                found = true;
            }
            j = j + 1;
        }
        proof {
            assert(av.take(i + 1).drop_last() =~= av.take(i as int));
            assert(av.take(i + 1).last() == av[i as int]);
            assert(found <==> bv.contains(av[i as int]));
            assert(av[i as int] == bind_view(a@[i as int]));
        }
        if !found {
            let ghost before = r@;
            r.push(owned(a[i].argument.as_str()));
            assert(crate::text::str_views(r@) =~= crate::text::str_views(before).push(a@[i as int].argument@));
        }
        i = i + 1;
    }
    assert(av.take(a.len() as int) =~= av);
    r
}

/// What differs between a running sandbox's settings `s` and the configuration in force
/// with the overlay mounts it would get now, checked in order: the network, the mounts,
/// then the user's bind mounts; `None` where they agree.
pub open spec fn settings_mismatch(s: SandboxSettings, config: Config, mounts: Seq<MountHash>) -> Option<Seq<char>> {
    let existing_binds = bind_views(user_binds(s.bind_mounts@));
    let current_binds = bind_views(user_binds(config.bind_mounts@));
    if s.network != config.net {
        Some(network_changed_message(s.network, config.net))
    } else if mount_views(s.mounts@) != mount_views(mounts) {
        Some(mounts_changed_message(mount_views(s.mounts@), mount_views(mounts)))
    } else if existing_binds != current_binds {
        Some(binds_changed_message(existing_binds, current_binds))
    } else {
        None
    }
}

/// Settings recorded when a sandbox starts with a configuration and overlay mounts
/// agree with that configuration and those mounts: checking them finds no difference.
pub proof fn lemma_fresh_settings_agree(s: SandboxSettings, config: Config, mounts: Seq<MountHash>)
    requires
        s.network == config.net,
        mount_views(s.mounts@) == mount_views(mounts),
        bind_views(s.bind_mounts@) == bind_views(config.bind_mounts@),
    ensures
        settings_mismatch(s, config, mounts) is None,
{
    lemma_user_bind_list_views(s.bind_mounts@, config.bind_mounts@);
    crate::sort::lemma_stable_sort_exists(&ByArgument, user_bind_list(s.bind_mounts@));
    lemma_stable_sorted_views(
        &ByArgument,
        |b: BindMount| bind_view(b),
        user_bind_list(s.bind_mounts@),
        user_bind_list(config.bind_mounts@),
    );
}

/// Whether bind mounts of `s` with one argument are one and the same mount.
pub open spec fn arguments_identify(s: Seq<BindMount>) -> bool {
    forall|i: int, j: int|
        0 <= i < s.len() && 0 <= j < s.len() && (#[trigger] s[i]).argument@ == (#[trigger] s[j]).argument@
            ==> bind_view(s[i]) == bind_view(s[j])
}

/// Two lists of bind mount views, each ordered by argument, that hold the same views
/// each as often, and in which views with one argument are one view, are one list.
proof fn lemma_sorted_bind_views_unique(
    x: Seq<(Seq<char>, Seq<char>, BindMountOptions, Seq<char>)>,
    y: Seq<(Seq<char>, Seq<char>, BindMountOptions, Seq<char>)>,
)
    requires
        forall|i: int, j: int| 0 <= i < j < x.len() ==> lex_le((#[trigger] x[i]).3, (#[trigger] x[j]).3),
        forall|i: int, j: int| 0 <= i < j < y.len() ==> lex_le((#[trigger] y[i]).3, (#[trigger] y[j]).3),
        x.to_multiset() == y.to_multiset(),
        forall|i: int, j: int|
            0 <= i < x.len() && 0 <= j < x.len() && (#[trigger] x[i]).3 == (#[trigger] x[j]).3 ==> x[i] == x[j],
    ensures
        x == y,
    decreases x.len(),
{
    broadcast use vstd::seq_lib::group_to_multiset_ensures;
    broadcast use vstd::multiset::group_multiset_axioms;

    if x.len() == 0 || y.len() == 0 {
        assert(x.to_multiset().len() == x.len());
        assert(y.to_multiset().len() == y.len());
        assert(x =~= y);
    } else {
        assert(x.to_multiset().count(x[0]) > 0) by {
            assert(x.contains(x[0]));
        }
        assert(y.contains(x[0]));
        let i = choose|i: int| 0 <= i < y.len() && y[i] == x[0];
        assert(y.to_multiset().count(y[0]) > 0) by {
            assert(y.contains(y[0]));
        }
        assert(x.contains(y[0]));
        let j = choose|j: int| 0 <= j < x.len() && x[j] == y[0];
        if i != 0 && j != 0 {
            assert(lex_le(y[0].3, y[i].3));
            assert(lex_le(x[0].3, x[j].3));
            lemma_lex_antisym(x[0].3, y[0].3);
            assert(x[0] == x[j]);
        }
        assert(x[0] == y[0]);
        assert(x.drop_first() =~= x.remove(0));
        assert(y.drop_first() =~= y.remove(0));
        let x2 = x.drop_first();
        let y2 = y.drop_first();
        assert forall|a: int, b: int| 0 <= a < b < x2.len() implies lex_le((#[trigger] x2[a]).3, (#[trigger] x2[b]).3) by {
            assert(x2[a] == x[a + 1]);
            assert(x2[b] == x[b + 1]);
        }
        assert forall|a: int, b: int| 0 <= a < b < y2.len() implies lex_le((#[trigger] y2[a]).3, (#[trigger] y2[b]).3) by {
            assert(y2[a] == y[a + 1]);
            assert(y2[b] == y[b + 1]);
        }
        assert forall|a: int, b: int|
            0 <= a < x2.len() && 0 <= b < x2.len() && (#[trigger] x2[a]).3 == (#[trigger] x2[b]).3 implies x2[a]
            == x2[b] by {
            assert(x2[a] == x[a + 1]);
            assert(x2[b] == x[b + 1]);
        }
        lemma_sorted_bind_views_unique(x2, y2);
        assert(x =~= seq![x[0]] + x2);
        assert(y =~= seq![y[0]] + y2);
    }
}

/// The user's bind mounts of `binds`, sorted, seen as views: in order of argument, the
/// same views as the user's bind mounts in their given order, each as often, and, where
/// mounts with one argument are one mount there, views with one argument are one view.
proof fn lemma_user_binds_facts(binds: Seq<BindMount>)
    ensures
        ({
            let x = bind_views(user_binds(binds));
            &&& forall|i: int, j: int| 0 <= i < j < x.len() ==> lex_le((#[trigger] x[i]).3, (#[trigger] x[j]).3)
            &&& x.to_multiset() == bind_views(user_bind_list(binds)).to_multiset()
            &&& arguments_identify(user_bind_list(binds)) ==> forall|i: int, j: int|
                0 <= i < x.len() && 0 <= j < x.len() && (#[trigger] x[i]).3 == (#[trigger] x[j]).3 ==> x[i] == x[j]
        }),
{
    let u = user_bind_list(binds);
    let r = user_binds(binds);
    let x = bind_views(r);
    lemma_stable_sort_exists(&ByArgument, u);
    lemma_stable_sort_multiset(&ByArgument, |b: BindMount| bind_view(b), u, r);
    let perm = choose|p: Seq<int>| stable_sort_with(&ByArgument, u, r, p);
    assert(stable_sort_with(&ByArgument, u, r, perm));
    assert(x.len() == r.len());
    assert forall|i: int, j: int| 0 <= i < j < x.len() implies lex_le((#[trigger] x[i]).3, (#[trigger] x[j]).3) by {
        assert(ByArgument.le(r[i], r[j]));
    }
    if arguments_identify(u) {
        assert forall|i: int, j: int|
            0 <= i < x.len() && 0 <= j < x.len() && (#[trigger] x[i]).3 == (#[trigger] x[j]).3 implies x[i] == x[j] by {
            assert(r[i] == u[perm[i]]);
            assert(r[j] == u[perm[j]]);
            assert(0 <= perm[i] < u.len());
            assert(0 <= perm[j] < u.len());
            assert(bind_view(u[perm[i]]) == bind_view(u[perm[j]]));
        }
    }
}

/// Checking a running sandbox's settings (`validate_against_config`, whose result is
/// `settings_mismatch`) does not depend on the order in which the bind mounts are
/// configured, nor on `data` mounts among them: two configurations with the same network
/// whose bind mounts, `data` mounts left out, are a permutation of each other (the same
/// mounts, each as often), where mounts with one argument are one mount, get the same
/// answer, success or the same error.
pub proof fn lemma_settings_check_ignores_bind_order(
    s: SandboxSettings,
    config1: Config,
    config2: Config,
    mounts: Seq<MountHash>,
)
    requires
        config1.net == config2.net,
        bind_views(user_bind_list(config1.bind_mounts@)).to_multiset() == bind_views(
            user_bind_list(config2.bind_mounts@),
        ).to_multiset(),
        arguments_identify(user_bind_list(config1.bind_mounts@)),
    ensures
        settings_mismatch(s, config1, mounts) == settings_mismatch(s, config2, mounts),
{
    lemma_user_binds_facts(config1.bind_mounts@);
    lemma_user_binds_facts(config2.bind_mounts@);
    lemma_sorted_bind_views_unique(
        bind_views(user_binds(config1.bind_mounts@)),
        bind_views(user_binds(config2.bind_mounts@)),
    );
}

/// The same law with the permutation given: where the bind mounts of `config2` other
/// than `data` are those of `config1` in the order `perm` picks them, and mounts with one
/// argument are one mount, the settings check gives the same answer for both.
pub proof fn lemma_settings_check_ignores_bind_permutation(
    s: SandboxSettings,
    config1: Config,
    config2: Config,
    mounts: Seq<MountHash>,
    perm: Seq<int>,
)
    requires
        config1.net == config2.net,
        is_permutation(perm, user_bind_list(config1.bind_mounts@).len()),
        user_bind_list(config2.bind_mounts@).len() == user_bind_list(config1.bind_mounts@).len(),
        forall|k: int| 0 <= k < user_bind_list(config2.bind_mounts@).len() ==> user_bind_list(config2.bind_mounts@)[k]
            == user_bind_list(config1.bind_mounts@)[#[trigger] perm[k]],
        arguments_identify(user_bind_list(config1.bind_mounts@)),
    ensures
        settings_mismatch(s, config1, mounts) == settings_mismatch(s, config2, mounts),
{
    let u1 = user_bind_list(config1.bind_mounts@);
    let u2 = user_bind_list(config2.bind_mounts@);
    assert forall|k: int| 0 <= k < bind_views(u2).len() implies bind_views(u2)[k] == bind_views(u1)[
        #[trigger] perm[k]] by {
        assert(u2[k] == u1[perm[k]]);
    }
    lemma_permuted_multiset(bind_views(u1), bind_views(u2), perm);
    lemma_settings_check_ignores_bind_order(s, config1, config2, mounts);
}

impl SandboxSettings {
    /// The settings a sandbox started now with `config` and overlay `mounts` has.
    pub fn from_config(config: &Config, mounts: &[MountHash]) -> (r: SandboxSettings)
        ensures
            r.version@ == settings_version(),
            mount_views(r.mounts@) == mount_views(mounts@),
            r.network == config.net,
            bind_views(r.bind_mounts@) == bind_views(config.bind_mounts@),
    {
        SandboxSettings {
            version: owned("0.1.0"),
            mounts: copy_mounts(mounts),
            network: config.net,
            bind_mounts: copy_binds(&config.bind_mounts),
        }
    }

    /// The bind mounts the user gave, without the sandbox's own `data` mount, ordered by
    /// argument.
    pub fn user_bind_mounts(&self) -> (r: Vec<BindMount>)
        ensures
            bind_views(r@) == bind_views(user_binds(self.bind_mounts@)),
            is_stable_sort(&ByArgument, user_bind_list(self.bind_mounts@), user_binds(self.bind_mounts@)),
    {
        let ghost all = self.bind_mounts@;
        let mut picked: Vec<BindMount> = Vec::new();
        let mut i: usize = 0;
        while i < self.bind_mounts.len()
            invariant
                i <= self.bind_mounts.len(),
                all == self.bind_mounts@,
                bind_views(picked@) == bind_views(user_bind_list(all.take(i as int))),
            decreases self.bind_mounts.len() - i,
        {
            proof {
                assert(all.take(i + 1).drop_last() =~= all.take(i as int));
            }
            let b = &self.bind_mounts[i];
            if !str_eq(b.argument.as_str(), "data") {
                let ghost before = picked@;
                let c = copy_bind(b);
                picked.push(c);
                assert(bind_views(picked@) =~= bind_views(before).push(bind_view(*b)));
                assert(bind_views(user_bind_list(all.take(i as int)).push(*b)) =~= bind_views(
                    user_bind_list(all.take(i as int)),
                ).push(bind_view(*b)));
            }
            i = i + 1;
        }
        assert(all.take(all.len() as int) =~= all);
        let ghost copies = picked@;
        let r = stable_sort(picked, &ByArgument);
        proof {
            lemma_stable_sorted_views(&ByArgument, |b: BindMount| bind_view(b), copies, user_bind_list(all));
        }
        r
    }

    /// Checks that a running sandbox's settings agree with the configuration in force and
    /// the overlay mounts it would get now; the network is compared first, then the
    /// mounts, then the user's bind mounts.
    pub fn validate_against_config(&self, config: &Config, mounts: &[MountHash]) -> (r: Result<(), String>)
        ensures
            match settings_mismatch(*self, *config, mounts@) {
                Some(m) => r matches Err(e) && e@ == m,
                None => r is Ok,
            },
    {
        let current = Self::from_config(config, mounts);
        if self.network != current.network {
            let mut m = chars_of("Network configuration has changed. Existing: ");
            push_str(&mut m, match self.network { Network::NoNetwork => "None", Network::Host => "Host" });
            push_str(&mut m, ", Current: ");
            push_str(&mut m, match current.network { Network::NoNetwork => "None", Network::Host => "Host" });
            push_str(&mut m, ". Please stop existing sandbox to change network settings.");
            return Err(string_of(&m));
        }
        if !mounts_eq(&self.mounts, &current.mounts) {
            let removed = missing_mount_dirs(&self.mounts, &current.mounts);
            let added = missing_mount_dirs(&current.mounts, &self.mounts);
            let mut m = chars_of("Mount configuration has changed:\n");
            push_section(&mut m, "  Removed mounts:\n", &removed);
            push_section(&mut m, "  Added mounts:\n", &added);
            push_str(&mut m, "Please stop the existing sandbox to change mount settings.");
            return Err(string_of(&m));
        }
        let existing = self.user_bind_mounts();
        let now = current.user_bind_mounts();
        proof {
            lemma_user_bind_list_views(current.bind_mounts@, config.bind_mounts@);
            lemma_stable_sorted_views(
                &ByArgument,
                |b: BindMount| bind_view(b),
                user_bind_list(current.bind_mounts@),
                user_bind_list(config.bind_mounts@),
            );
        }
        if !binds_eq(&existing, &now) {
            let removed = missing_bind_args(&existing, &now);
            let added = missing_bind_args(&now, &existing);
            let mut m = chars_of("Bind mount configuration has changed:\n");
            push_section(&mut m, "  Removed bind mounts:\n", &removed);
            push_section(&mut m, "  Added bind mounts:\n", &added);
            push_str(&mut m, "Please stop the existing sandbox to change bind mount settings.");
            return Err(string_of(&m));
        }
        Ok(())
    }
}

} // verus!
