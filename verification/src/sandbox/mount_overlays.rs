//! Choosing the host mounts that a sandbox lays an overlay on.
use vstd::prelude::*;
use crate::sandbox::changes::upper::decoded_name;
use crate::encoding::{base32_encode, base32_nopad};
use crate::order::{lex_le, chars_le, lemma_lex_total, lemma_lex_trans};
use crate::paths::starts_with_path;
use crate::sort::{TotalPreorder, is_stable_sort, stable_sort, lemma_stable_sort_multiset};
use crate::text::{chars_of, owned, str_eq};

verus! {

/// A host mount that gets an overlay, with the base32 name of its directory under which
/// the sandbox keeps that overlay's layers.
#[derive(Debug, Clone, PartialEq, Eq)]
pub struct MountHash {
    pub hash: String,
    pub dir: String,
}

/// The characters of a mount's name and directory.
pub open spec fn mount_view(m: MountHash) -> (Seq<char>, Seq<char>) {
    (m.hash@, m.dir@)
}

/// The views of a list of mounts.
pub open spec fn mount_views(s: Seq<MountHash>) -> Seq<(Seq<char>, Seq<char>)> {
    s.map_values(|m: MountHash| mount_view(m))
}

/// Mounts ordered by directory.
pub struct ByDir;

impl TotalPreorder<MountHash> for ByDir {
    open spec fn le(&self, a: MountHash, b: MountHash) -> bool {
        lex_le(a.dir@, b.dir@)
    }

    fn le_exec(&self, a: &MountHash, b: &MountHash) -> (r: bool) {
        chars_le(&chars_of(a.dir.as_str()), &chars_of(b.dir.as_str()))
    }

    proof fn lemma_total(&self, a: MountHash, b: MountHash) {
        lemma_lex_total(a.dir@, b.dir@);
    }

    proof fn lemma_trans(&self, a: MountHash, b: MountHash, c: MountHash) {
        lemma_lex_trans(a.dir@, b.dir@, c.dir@);
    }
}

/// File system types that get an overlay besides the root: those of real local or
/// network disks.
pub open spec fn acceptable_overlay_type(t: Seq<char>) -> bool {
    t == "xfs"@ || t == "nfs4"@ || t == "ext2"@ || t == "ext3"@ || t == "ext4"@ || t == "zfs"@ || t
        == "btrfs"@
}

/// Whether a mount gets an overlay: the root always does, other mounts when of an
/// acceptable type; none under the sandbox's own directory `base` does.
pub open spec fn gets_overlay(dir: Seq<char>, fstype: Seq<char>, base: Seq<char>) -> bool {
    (dir == "/"@ || acceptable_overlay_type(fstype)) && !starts_with_path(dir, base)
}

/// The overlay mounts chosen from the host's mounts `(directory, type)`, before ordering.
pub open spec fn chosen_mounts(mounts: Seq<(Seq<char>, Seq<char>)>, base: Seq<char>) -> Seq<(Seq<char>, Seq<char>)>
    decreases mounts.len(),
{
    if mounts.len() == 0 {
        seq![]
    } else {
        let rest = chosen_mounts(mounts.drop_last(), base);
        let (dir, t) = mounts.last();
        if gets_overlay(dir, t, base) {
            rest.push((base32_nopad(dir), dir))
        } else {
            rest
        }
    }
}

/// The message when no host mount gets an overlay.
pub open spec fn no_mounts_message() -> Seq<char> {
    "No suitable mounts found for sandbox, something is very wrong"@
}

fn is_acceptable_overlay_type(t: &str) -> (r: bool)
    ensures
        r == acceptable_overlay_type(t@),
{
    str_eq(t, "xfs") || str_eq(t, "nfs4") || str_eq(t, "ext2") || str_eq(t, "ext3") || str_eq(t, "ext4")
        || str_eq(t, "zfs") || str_eq(t, "btrfs")
}

/// Chooses the host mounts, given as `(directory, type)` in the order the host lists
/// them, that a sandbox whose directory is `base` lays overlays on, ordered by directory.
pub fn select_overlay_mounts(mounts: &Vec<(String, String)>, base: &str) -> (r: Result<Vec<MountHash>, String>)
    ensures
        ({
            let chosen = chosen_mounts(mounts@.map_values(|m: (String, String)| (m.0@, m.1@)), base@);
            if chosen.len() == 0 {
                r matches Err(m) && m@ == no_mounts_message()
            } else {
                r matches Ok(v) && exists|t: Seq<MountHash>|
                    mount_views(t) == chosen && is_stable_sort(&ByDir, t, v@)
            }
        }),
        r matches Ok(v) ==> forall|i: int| 0 <= i < v.len() ==> #[trigger] decoded_name(v@[i].hash@)
            == Some(v@[i].dir@),
        r matches Ok(v) ==> {
            let ms = mounts@.map_values(|m: (String, String)| (m.0@, m.1@));
            &&& forall|k: int| 0 <= k < ms.len() && overlay_wanted((#[trigger] ms[k]).0, ms[k].1, base@)
                ==> mount_views(v@).contains((base32_nopad(ms[k].0), ms[k].0))
            &&& forall|i: int| 0 <= i < v.len() ==> #[trigger] named_wanted_mount(ms, base@, mount_view(v@[i]))
        },
{
    let ghost mv = mounts@.map_values(|m: (String, String)| (m.0@, m.1@));
    let base_c = chars_of(base);
    let mut picked: Vec<MountHash> = Vec::new();
    let mut i: usize = 0;
    while i < mounts.len()
        invariant
            i <= mounts.len(),
            base_c@ == base@,
            mv == mounts@.map_values(|m: (String, String)| (m.0@, m.1@)),
            mount_views(picked@) == chosen_mounts(mv.take(i as int), base@),
            forall|k: int| 0 <= k < picked.len() ==> #[trigger] decoded_name(picked@[k].hash@)
                == Some(picked@[k].dir@),
        decreases mounts.len() - i,
    {
        proof {
            assert(mv.take(i + 1).drop_last() =~= mv.take(i as int));
            assert(mv.take(i + 1).last() == mv[i as int]);
        }
        let dir = &mounts[i].0;
        let fstype = &mounts[i].1;
        let dir_c = chars_of(dir.as_str());
        let keep = (str_eq(dir.as_str(), "/") || is_acceptable_overlay_type(fstype.as_str()))
            && !crate::paths::path_starts_with(&dir_c, &base_c);
        if keep {
            let ghost before = picked@;
            let m = MountHash { hash: base32_encode(dir.as_str()), dir: owned(dir.as_str()) };
            proof {
                vstd::utf8::encode_utf8_valid_utf8(dir@);
                vstd::utf8::encode_utf8_decode_utf8(dir@);
            }
            picked.push(m);
            assert(mount_views(picked@) =~= mount_views(before).push(mount_view(m)));
        }
        i = i + 1;
    }
    assert(mv.take(mounts.len() as int) =~= mv);
    if picked.len() == 0 {
        return Err(owned("No suitable mounts found for sandbox, something is very wrong"));
    }
    let ghost t = picked@;
    let sorted = stable_sort(picked, &ByDir);
    proof {
        let perm = choose|perm: Seq<int>| crate::sort::stable_sort_with(&ByDir, t, sorted@, perm);
        assert forall|i: int| 0 <= i < sorted.len() implies #[trigger] decoded_name(sorted@[i].hash@)
            == Some(sorted@[i].dir@) by {
            assert(sorted@[i] == t[perm[i]]);
        }
        lemma_selected_mounts_wanted(mv, base@, t, sorted@);
    }
    Ok(sorted)
}

/// The options of the overlay for a mount directory `dir`, with the layers kept under
/// `upper` and `work`: no index, renamed directories redirected, no metadata-only copies.
pub open spec fn overlay_options(dir: Seq<char>, upper: Seq<char>, work: Seq<char>) -> Seq<char> {
    "lowerdir="@ + dir + ",upperdir="@ + upper + ",workdir="@ + work + ",index=off,redirect_dir=on,metacopy=off"@
}

/// The options of the overlay for a mount directory.
pub fn overlay_options_for(dir: &str, upper: &str, work: &str) -> (r: String)
    ensures
        r@ == overlay_options(dir@, upper@, work@),
{
    let mut m = chars_of("lowerdir=");
    crate::text::push_str(&mut m, dir);
    crate::text::push_str(&mut m, ",upperdir=");
    crate::text::push_str(&mut m, upper);
    crate::text::push_str(&mut m, ",workdir=");
    crate::text::push_str(&mut m, work);
    crate::text::push_str(&mut m, ",index=off,redirect_dir=on,metacopy=off");
    crate::text::string_of(&m)
}

/// Whether a host mount should get an overlay: it is the root, or its file system is one
/// of xfs, nfs4, ext2, ext3, ext4, zfs and btrfs; and it does not lie under `base`.
pub open spec fn overlay_wanted(dir: Seq<char>, fstype: Seq<char>, base: Seq<char>) -> bool {
    &&& dir == "/"@ || fstype == "xfs"@ || fstype == "nfs4"@ || fstype == "ext2"@ || fstype == "ext3"@
        || fstype == "ext4"@ || fstype == "zfs"@ || fstype == "btrfs"@
    &&& !starts_with_path(dir, base)
}

/// Whether `x` is a mount that should get an overlay, named by the base32 text of its
/// directory.
pub open spec fn named_wanted_mount(mounts: Seq<(Seq<char>, Seq<char>)>, base: Seq<char>, x: (Seq<char>, Seq<char>)) -> bool {
    exists|k: int|
        0 <= k < mounts.len() && overlay_wanted((#[trigger] mounts[k]).0, mounts[k].1, base) && x == (
            base32_nopad(mounts[k].0),
            mounts[k].0,
        )
}

/// The overlay mounts chosen from the host's mounts are exactly those that should get
/// one, each named by the base32 text of its directory.
pub proof fn lemma_chosen_mounts_wanted(mounts: Seq<(Seq<char>, Seq<char>)>, base: Seq<char>)
    ensures
        forall|k: int| 0 <= k < mounts.len() && overlay_wanted((#[trigger] mounts[k]).0, mounts[k].1, base)
            ==> chosen_mounts(mounts, base).contains((base32_nopad(mounts[k].0), mounts[k].0)),
        forall|i: int| 0 <= i < chosen_mounts(mounts, base).len() ==> #[trigger] named_wanted_mount(
            mounts,
            base,
            chosen_mounts(mounts, base)[i],
        ),
    decreases mounts.len(),
{
    if mounts.len() > 0 {
        let d = mounts.drop_last();
        let n = mounts.len() - 1;
        lemma_chosen_mounts_wanted(d, base);
        let rest = chosen_mounts(d, base);
        let all = chosen_mounts(mounts, base);
        let (dir, t) = mounts[n];
        assert(gets_overlay(dir, t, base) == overlay_wanted(dir, t, base));
        if gets_overlay(dir, t, base) {
            assert(all == rest.push((base32_nopad(dir), dir)));
        } else {
            assert(all == rest);
        }
        assert forall|k: int| 0 <= k < mounts.len() && overlay_wanted((#[trigger] mounts[k]).0, mounts[k].1, base)
            implies all.contains((base32_nopad(mounts[k].0), mounts[k].0)) by {
            if k < n {
                assert(d[k] == mounts[k]);
                let i = choose|i: int| 0 <= i < rest.len() && rest[i] == (base32_nopad(d[k].0), d[k].0);
                assert(all[i] == rest[i]);
            } else {
                assert(all[all.len() - 1] == (base32_nopad(dir), dir));
            }
        }
        assert forall|i: int| 0 <= i < all.len() implies #[trigger] named_wanted_mount(mounts, base, all[i]) by {
            if i < rest.len() {
                assert(all[i] == rest[i]);
                assert(named_wanted_mount(d, base, rest[i]));
                let k = choose|k: int|
                    0 <= k < d.len() && overlay_wanted((#[trigger] d[k]).0, d[k].1, base) && rest[i] == (
                        base32_nopad(d[k].0),
                        d[k].0,
                    );
                assert(mounts[k] == d[k]);
            } else {
                assert(mounts[n] == (dir, t));
            }
        }
    }
}

/// The mounts `select_overlay_mounts` gives (the chosen mounts, sorted) are exactly the
/// host's mounts that should get an overlay: each of those is among them, named by the
/// base32 text of its directory, and each of them is one of those.
pub proof fn lemma_selected_mounts_wanted(
    mounts: Seq<(Seq<char>, Seq<char>)>,
    base: Seq<char>,
    t: Seq<MountHash>,
    v: Seq<MountHash>,
)
    requires
        mount_views(t) == chosen_mounts(mounts, base),
        is_stable_sort(&ByDir, t, v),
    ensures
        forall|k: int| 0 <= k < mounts.len() && overlay_wanted((#[trigger] mounts[k]).0, mounts[k].1, base)
            ==> mount_views(v).contains((base32_nopad(mounts[k].0), mounts[k].0)),
        forall|i: int| 0 <= i < v.len() ==> #[trigger] named_wanted_mount(mounts, base, mount_view(v[i])),
{
    broadcast use vstd::seq_lib::group_to_multiset_ensures;

    lemma_chosen_mounts_wanted(mounts, base);
    lemma_stable_sort_multiset(&ByDir, |m: MountHash| mount_view(m), t, v);
    let c = chosen_mounts(mounts, base);
    assert(mount_views(v).to_multiset() == c.to_multiset());
    assert forall|k: int| 0 <= k < mounts.len() && overlay_wanted((#[trigger] mounts[k]).0, mounts[k].1, base)
        implies mount_views(v).contains((base32_nopad(mounts[k].0), mounts[k].0)) by {
        let x = (base32_nopad(mounts[k].0), mounts[k].0);
        assert(c.contains(x));
        assert(c.to_multiset().count(x) > 0);
        assert(mount_views(v).to_multiset().count(x) > 0);
    }
    assert forall|i: int| 0 <= i < v.len() implies #[trigger] named_wanted_mount(mounts, base, mount_view(v[i])) by {
        let x = mount_view(v[i]);
        assert(mount_views(v)[i] == x);
        assert(mount_views(v).contains(x));
        assert(mount_views(v).to_multiset().count(x) > 0);
        assert(c.to_multiset().count(x) > 0);
        assert(c.contains(x));
        let j = choose|j: int| 0 <= j < c.len() && c[j] == x;
        assert(named_wanted_mount(mounts, base, c[j]));
    }
}

} // verus!
