//! What the file system says about a path: its kind, owner and mode, and the marks
//! that an overlay's upper layer leaves on it.
use vstd::prelude::*;
use vstd::utf8::{valid_utf8, decode_utf8, encode_utf8};
use vstd::string::StrSliceExecFns;
use crate::text::{chars_of, owned, push_str, string_of};
use crate::numbers::{signed_decimal, i32_text, decimal, decimal_of};

verus! {

/// Mask of the file type bits of a mode.
pub const S_IFMT: u32 = 0o170000;
/// File type: regular file.
pub const S_IFREG: u32 = 0o100000;
/// File type: directory.
pub const S_IFDIR: u32 = 0o040000;
/// File type: symbolic link.
pub const S_IFLNK: u32 = 0o120000;
/// File type: character device.
pub const S_IFCHR: u32 = 0o020000;
/// File type: block device.
pub const S_IFBLK: u32 = 0o060000;
/// File type: FIFO.
pub const S_IFIFO: u32 = 0o010000;
/// File type: socket.
pub const S_IFSOCK: u32 = 0o140000;

/// The parts of a file's status that the sandbox looks at.
#[derive(Debug, Clone, Copy, PartialEq, Eq, Structural)]
pub struct FileStat {
    pub st_mode: u32,
    pub st_uid: u32,
    pub st_gid: u32,
    pub st_rdev: u64,
}

/// A path and what the file system said about it, not following a final symbolic link.
#[derive(Debug, Clone)]
pub struct FileDetails {
    pub path: String,
    pub stat: FileStat,
}

/// The file type bits of a mode.
pub open spec fn file_type(mode: u32) -> u32 {
    mode & S_IFMT
}

/// The characters of a path and its status.
pub open spec fn details_view(d: FileDetails) -> (Seq<char>, FileStat) {
    (d.path@, d.stat)
}

/// The view of optional file details.
pub open spec fn opt_details_view(d: Option<FileDetails>) -> Option<(Seq<char>, FileStat)> {
    match d {
        Some(x) => Some(details_view(x)),
        None => None,
    }
}

/// How a failure to read a path's metadata is reported: the message starts with this.
pub open spec fn stat_error_prefix(path: Seq<char>) -> Seq<char> {
    "Error getting stat for "@ + path + ": "@
}

/// How a failure to read an extended attribute is reported: the message starts with this.
pub open spec fn xattr_error_prefix(path: Seq<char>) -> Seq<char> {
    "Error getting xattr data for "@ + path + ": "@
}

/// Whether byte `k` of `b` is its first zero byte.
pub open spec fn nul_at(b: Seq<u8>, k: int) -> bool {
    &&& 0 <= k < b.len()
    &&& b[k] == 0
    &&& forall|j: int| 0 <= j < k ==> b[j] != 0
}

/// How a path that holds a zero byte, at byte `k` of its UTF-8 form, is refused before it
/// is handed to the system.
pub open spec fn path_nul_message(k: int) -> Seq<char> {
    "Failed to create CString from path: nul byte found in provided data at position: "@ + decimal(
        k as nat,
    )
}

/// Whether `m` is how reading the redirect attribute of `path` may fail: the path holds
/// a zero byte, or the system refused the read.
pub open spec fn redirect_read_error(path: Seq<char>, m: Seq<char>) -> bool {
    ||| xattr_error_prefix(path).is_prefix_of(m)
    ||| exists|k: int| nul_at(encode_utf8(path), k) && m == #[trigger] path_nul_message(k)
}

/// The first zero byte of `b`, if there is one.
fn first_nul(b: &Vec<u8>) -> (r: Option<usize>)
    ensures
        match r {
            Some(k) => nul_at(b@, k as int),
            None => forall|j: int| 0 <= j < b.len() ==> b@[j] != 0,
        },
{
    let mut i: usize = 0;
    while i < b.len()
        invariant
            i <= b.len(),
            forall|j: int| 0 <= j < i ==> b@[j] != 0,
        decreases b.len() - i,
    {
        if b[i] == 0 {
            return Some(i);
        }
        i = i + 1;
    }
    None
}

/// Calls `nix::sys::stat::fstatat` on `path` without following a final symbolic link,
/// from the current directory, and gives the metadata read or the error number of the
/// failure. What comes back depends on the file system, so nothing is stated of it.
#[verifier::external_body]
fn stat_no_follow(path: &str) -> (r: Result<FileStat, i32>) {
    match nix::sys::stat::fstatat(None, path, nix::fcntl::AtFlags::AT_SYMLINK_NOFOLLOW) {
        Ok(st) => Ok(FileStat { st_mode: st.st_mode, st_uid: st.st_uid, st_gid: st.st_gid, st_rdev: st.st_rdev }),
        Err(e) => Err(e as i32),
    }
}

/// The error number of a path that does not exist (`ENOENT` on Linux).
pub const ENOENT: i32 = 2;

/// How `nix::errno::Errno` shows an error number: its name, a colon and its
/// description, as `nix` lists them.
pub uninterp spec fn errno_message(e: i32) -> Seq<char>;

/// Calls `nix::errno::Errno::from_raw(e)` and formats it as `Display` does.
#[verifier::external_body]
fn errno_text(e: i32) -> (r: String)
    ensures
        r@ == errno_message(e),
{
    nix::errno::Errno::from_raw(e).to_string()
}

/// What reading `path`'s metadata gave, as file details: the details read; nothing
/// where the path does not exist; otherwise an error naming the path and the failure.
pub open spec fn details_outcome(path: Seq<char>, o: Result<FileStat, i32>) -> Result<Option<(Seq<char>, FileStat)>, Seq<char>> {
    match o {
        Ok(st) => Ok(Some((path, st))),
        Err(e) => if e == ENOENT {
            Ok(None)
        } else {
            Err(stat_error_prefix(path) + errno_message(e))
        },
    }
}

/// The view of what reading file details gave.
pub open spec fn details_result_view(r: Result<Option<FileDetails>, String>) -> Result<Option<(Seq<char>, FileStat)>, Seq<char>> {
    match r {
        Ok(Some(d)) => Ok(Some(details_view(d))),
        Ok(None) => Ok(None),
        Err(m) => Err(m@),
    }
}

/// File details from what reading `path`'s metadata gave (see `details_outcome`).
pub fn details_from_stat(path: &String, o: Result<FileStat, i32>) -> (r: Result<Option<FileDetails>, String>)
    ensures
        details_result_view(r) == details_outcome(path@, o),
{
    match o {
        Ok(stat) => Ok(Some(FileDetails { path: owned(path.as_str()), stat })),
        Err(e) => {
            if e == ENOENT {
                Ok(None)
            } else {
                let mut m = chars_of("Error getting stat for ");
                push_str(&mut m, path.as_str());
                push_str(&mut m, ": ");
                push_str(&mut m, errno_text(e).as_str());
                Err(string_of(&m))
            }
        },
    }
}

/// Calls `xattr::get`, which reads the extended attribute `name` of `path` without
/// following a final symbolic link: `Ok(None)` when the file has no such attribute, else
/// the error number of the failure. Every error `xattr` gives on Linux comes from an
/// error number (`rustix`'s `Errno` turned into `io::Error::from_raw_os_error`), so the
/// number is always there; what comes back otherwise depends on the file system and is
/// not stated.
#[verifier::external_body]
fn get_xattr(path: &str, name: &str) -> (r: Result<Option<Vec<u8>>, Option<i32>>)
    ensures
        r matches Err(e) ==> e is Some,
{
    match xattr::get(path, name) {
        Ok(v) => Ok(v),
        Err(e) => Err(e.raw_os_error()),
    }
}

/// The text that bytes decode to with invalid sequences replaced, as
/// `String::from_utf8_lossy` gives it.
pub uninterp spec fn utf8_lossy(v: Seq<u8>) -> Seq<char>;

/// Calls `String::from_utf8_lossy`, which decodes UTF-8, putting U+FFFD in place of
/// invalid sequences; valid UTF-8 decodes unchanged.
#[verifier::external_body]
fn text_from_utf8_lossy(v: &Vec<u8>) -> (r: String)
    ensures
        r@ == utf8_lossy(v@),
        valid_utf8(v@) ==> r@ == decode_utf8(v@),
{
    String::from_utf8_lossy(v).to_string()
}

/// Whether a reading of a marker attribute shows the marker set: the attribute exists
/// and its value is at most one byte long (a longer value does not fit the one byte read
/// for markers, and reading fails).
pub open spec fn marker_set(r: Result<Option<Seq<u8>>, Option<i32>>) -> bool {
    match r {
        Ok(Some(v)) => v.len() <= 1,
        _ => false,
    }
}

/// The view of a reading of an attribute.
pub open spec fn xattr_view(r: Result<Option<Vec<u8>>, Option<i32>>) -> Result<Option<Seq<u8>>, Option<i32>> {
    match r {
        Ok(Some(v)) => Ok(Some(v@)),
        Ok(None) => Ok(None),
        Err(e) => Err(e),
    }
}

/// Whether a reading of a marker attribute shows the marker set.
pub fn marker_from_reading(r: &Result<Option<Vec<u8>>, Option<i32>>) -> (b: bool)
    ensures
        b == marker_set(xattr_view(*r)),
{
    match r {
        Ok(Some(v)) => v.len() <= 1,
        _ => false,
    }
}

/// The redirect that a reading of the redirect attribute of `path` gives: the
/// attribute's text, none where it is not set, or a message naming the path and the
/// error number.
pub open spec fn redirect_from(path: Seq<char>, r: Result<Option<Seq<u8>>, Option<i32>>) -> Result<Option<Seq<char>>, Seq<char>> {
    match r {
        Ok(Some(v)) => Ok(Some(utf8_lossy(v))),
        Ok(None) => Ok(None),
        Err(e) => Err(xattr_error_prefix(path) + signed_decimal(e->0 as int)),
    }
}

/// The redirect that a reading of the redirect attribute of `path` gives.
pub fn redirect_from_reading(path: &str, r: Result<Option<Vec<u8>>, Option<i32>>) -> (p: Result<Option<String>, String>)
    requires
        r matches Err(e) ==> e is Some,
    ensures
        match (p, redirect_from(path@, xattr_view(r))) {
            (Ok(Some(a)), Ok(Some(b))) => a@ == b,
            (Ok(None), Ok(None)) => true,
            (Err(a), Err(b)) => a@ == b,
            _ => false,
        },
{
    match r {
        Ok(Some(v)) => Ok(Some(text_from_utf8_lossy(&v))),
        Ok(None) => Ok(None),
        Err(e) => {
            let n = e.unwrap();
            let mut m = chars_of("Error getting xattr data for ");
            push_str(&mut m, path);
            push_str(&mut m, ": ");
            push_str(&mut m, i32_text(n).as_str());
            Err(string_of(&m))
        },
    }
}

/// The name of a file type.
pub open spec fn file_type_name(mode: u32) -> Seq<char> {
    let t = file_type(mode);
    if t == S_IFREG {
        "file"@
    } else if t == S_IFDIR {
        "directory"@
    } else if t == S_IFLNK {
        "symlink"@
    } else if t == S_IFCHR {
        "character device"@
    } else if t == S_IFBLK {
        "block device"@
    } else if t == S_IFIFO {
        "FIFO"@
    } else if t == S_IFSOCK {
        "socket"@
    } else {
        "unknown"@
    }
}

/// Whether a character device is an overlay whiteout: device number 0, 0.
pub open spec fn whiteout_device(rdev: u64) -> bool {
    (rdev >> 8u64) & 0xffu64 == 0 && rdev & 0xffu64 == 0
}

impl FileDetails {
    /// What the file system says about `path`, not following a final symbolic link;
    /// `None` where nothing is there.
    pub fn from_path(path: &String) -> (r: Result<Option<FileDetails>, String>)
        ensures
            r matches Ok(Some(d)) ==> d.path@ == path@,
            r matches Err(e) ==> stat_error_prefix(path@).is_prefix_of(e@),
            exists|o: Result<FileStat, i32>| details_result_view(r) == #[trigger] details_outcome(path@, o),
    {
        let o = stat_no_follow(path.as_str());
        let r = details_from_stat(path, o);
        proof {
            if r is Err {
                let m = r->Err_0@;
                assert(m == stat_error_prefix(path@) + errno_message(o->Err_0));
                assert(stat_error_prefix(path@).is_prefix_of(m)) by {
                    assert(m.subrange(0, stat_error_prefix(path@).len() as int) =~= stat_error_prefix(path@));
                }
            }
        }
        r
    }

    /// Whether the path is a symbolic link.
    pub fn is_symlink(&self) -> (r: bool)
        ensures
            r == (file_type(self.stat.st_mode) == S_IFLNK),
    {
        self.stat.st_mode & S_IFMT == S_IFLNK
    }

    /// Whether the path is a regular file.
    pub fn is_file(&self) -> (r: bool)
        ensures
            r == (file_type(self.stat.st_mode) == S_IFREG),
    {
        self.stat.st_mode & S_IFMT == S_IFREG
    }

    /// Whether the path is a directory.
    pub fn is_dir(&self) -> (r: bool)
        ensures
            r == (file_type(self.stat.st_mode) == S_IFDIR),
    {
        self.stat.st_mode & S_IFMT == S_IFDIR
    }

    /// Whether the path is a character device.
    pub fn is_char_device(&self) -> (r: bool)
        ensures
            r == (file_type(self.stat.st_mode) == S_IFCHR),
    {
        self.stat.st_mode & S_IFMT == S_IFCHR
    }

    /// Whether the directory is opaque: made anew in the sandbox, hiding whatever the
    /// host had there. The overlay marks it with `trusted.overlay.opaque`.
    pub fn is_opaque(&self) -> (r: bool) {
        let reading = get_xattr(self.path.as_str(), "trusted.overlay.opaque");
        marker_from_reading(&reading)
    }

    /// Whether the path is a whiteout: the sandbox removed what the host has there. The
    /// overlay leaves either a character device numbered 0, 0, or a file marked with
    /// `trusted.overlay.whiteout`.
    pub fn is_removed(&self) -> (r: bool)
        ensures
            file_type(self.stat.st_mode) == S_IFCHR ==> r == whiteout_device(self.stat.st_rdev),
    {
        if self.is_char_device() {
            let major = (self.stat.st_rdev >> 8u64) & 0xffu64;
            let minor = self.stat.st_rdev & 0xffu64;
            return major == 0 && minor == 0;
        }
        let reading = get_xattr(self.path.as_str(), "trusted.overlay.whiteout");
        marker_from_reading(&reading)
    }

    /// Where the path was renamed from, as the overlay's `trusted.overlay.redirect`
    /// records it; `None` where it was not renamed.
    pub fn is_renamed(&self) -> (r: Result<Option<String>, String>)
        ensures
            match r {
                Ok(Some(s)) => exists|v: Seq<u8>| s@ == #[trigger] utf8_lossy(v),
                Ok(None) => true,
                Err(e) => redirect_read_error(self.path@, e@) && ((forall|k: int| !nul_at(encode_utf8(self.path@), k))
                    ==> exists|n: i32| e@ == xattr_error_prefix(self.path@) + #[trigger] signed_decimal(n as int)),
            },
            forall|k: int| #[trigger] nul_at(encode_utf8(self.path@), k) ==> (r matches Err(e) && e@ == path_nul_message(k)),
    {
        let bytes = self.path.as_str().as_bytes_vec();
        match first_nul(&bytes) {
            Some(k) => {
                let mut m = chars_of("Failed to create CString from path: nul byte found in provided data at position: ");
                push_str(&mut m, decimal_of(k as u64).as_str());
                let r: Result<Option<String>, String> = Err(string_of(&m));
                proof {
                    assert forall|j: int| #[trigger] nul_at(encode_utf8(self.path@), j) implies j == k by {
                        if j < k {
                            assert(bytes@[j] != 0);
                        } else if j > k {
                            assert(bytes@[k as int] != 0);
                        }
                    }
                    assert(r->Err_0@ == path_nul_message(k as int));
                    assert(redirect_read_error(self.path@, r->Err_0@));
                }
                return r;
            },
            None => {},
        }
        let reading = get_xattr(self.path.as_str(), "trusted.overlay.redirect");
        let ghost rv = xattr_view(reading);
        let r = redirect_from_reading(self.path.as_str(), reading);
        proof {
            if let Ok(Some(v)) = rv {
                assert(redirect_from(self.path@, rv) == Ok::<Option<Seq<char>>, Seq<char>>(Some(utf8_lossy(v))));
            }
            if let Err(o) = rv {
                let n = o->0;
                let m = xattr_error_prefix(self.path@) + signed_decimal(n as int);
                assert(r->Err_0@ == m);
                assert(xattr_error_prefix(self.path@).is_prefix_of(m)) by {
                    assert(m.subrange(0, xattr_error_prefix(self.path@).len() as int) =~= xattr_error_prefix(self.path@));
                }
            }
        }
        r
    }

    /// The name of the path's file type.
    pub fn display_type(&self) -> (r: String)
        ensures
            r@ == file_type_name(self.stat.st_mode),
    {
        let t = self.stat.st_mode & S_IFMT;
        if t == S_IFREG {
            owned("file")
        } else if t == S_IFDIR {
            owned("directory")
        } else if t == S_IFLNK {
            owned("symlink")
        } else if t == S_IFCHR {
            owned("character device")
        } else if t == S_IFBLK {
            owned("block device")
        } else if t == S_IFIFO {
            owned("FIFO")
        } else if t == S_IFSOCK {
            owned("socket")
        } else {
            owned("unknown")
        }
    }
}

} // verus!
