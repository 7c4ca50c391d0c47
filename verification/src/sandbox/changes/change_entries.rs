//! The changes found in a sandbox, how they are shown, ordered and picked out by
//! patterns.
use vstd::prelude::*;
use colored::Colorize;
use crate::glob::{glob_match, glob_matches};
use crate::order::{path_le, path_le_exec, lemma_path_total, lemma_path_trans};
use crate::paths::{
    components, normalized_components, normalize_components_of, rebuild, rebuild_of, strip_prefix,
    strip_prefix_of,
};
use crate::sandbox::changes::file_details::{
    FileDetails, FileStat, details_view, opt_details_view, file_type, S_IFDIR,
};
use crate::sort::{TotalPreorder, stable_sort, stable_sorted};
use crate::text::{
    chars_of, string_of, owned, push_str, push_all, has_prefix, str_views, contains_seq, copy_chars,
};

verus! {

/// Whether a path is to be created or changed.
#[derive(Debug, Clone, Copy, PartialEq, Eq, Structural)]
pub enum SetType {
    Create,
    Modify,
}

/// Why a change cannot be applied.
#[derive(Debug, Clone, Copy, PartialEq, Eq, Structural)]
pub enum ChangeError {
    UnsupportedFileType,
    RedirectPathNotFound,
}

/// What a change does to its destination path.
#[derive(Debug, Clone, Copy, PartialEq, Eq, Structural)]
pub enum EntryOperation {
    Write(SetType),
    Remove,
    Rename,
    Error(ChangeError),
}

/// A single change found in the sandbox.
#[derive(Debug, Clone)]
pub struct ChangeEntry {
    /// The path the change is to; it may not exist yet.
    pub destination: String,
    /// What the change does.
    pub operation: EntryOperation,
    /// The host's current file at the path; for a rename, the file it comes from.
    pub source: Option<FileDetails>,
    /// The sandbox's version of the file, in the upper layer.
    pub staged: Option<FileDetails>,
    /// Where a renamed file waits between leaving its source and reaching its
    /// destination.
    pub tmp_path: Option<String>,
}

/// A list of changes.
#[derive(Debug, Clone)]
pub struct ChangeEntries(pub Vec<ChangeEntry>);

/// The view of a change: its strings taken by their characters.
pub type EntryView = (
    Seq<char>,
    EntryOperation,
    Option<(Seq<char>, FileStat)>,
    Option<(Seq<char>, FileStat)>,
    Option<Seq<char>>,
);

/// The view of a change.
pub open spec fn entry_view(e: ChangeEntry) -> EntryView {
    (
        e.destination@,
        e.operation,
        opt_details_view(e.source),
        opt_details_view(e.staged),
        crate::text::opt_view(e.tmp_path),
    )
}

/// The views of a list of changes.
pub open spec fn entry_views(s: Seq<ChangeEntry>) -> Seq<EntryView> {
    s.map_values(|e: ChangeEntry| entry_view(e))
}

/// A copy of file details.
pub fn copy_details(d: &FileDetails) -> (r: FileDetails)
    ensures
        details_view(r) == details_view(*d),
{
    FileDetails { path: owned(d.path.as_str()), stat: d.stat }
}

/// A copy of optional file details.
pub fn copy_opt_details(d: &Option<FileDetails>) -> (r: Option<FileDetails>)
    ensures
        opt_details_view(r) == opt_details_view(*d),
{
    match d {
        Some(x) => Some(copy_details(x)),
        None => None,
    }
}

/// A copy of a change.
pub fn copy_entry(e: &ChangeEntry) -> (r: ChangeEntry)
    ensures
        entry_view(r) == entry_view(*e),
{
    ChangeEntry {
        destination: owned(e.destination.as_str()),
        operation: e.operation,
        source: copy_opt_details(&e.source),
        staged: copy_opt_details(&e.staged),
        tmp_path: match &e.tmp_path {
            Some(p) => Some(owned(p.as_str())),
            None => None,
        },
    }
}

/// Whether a change is worth showing: a change to a path that is set and modified
/// where the host's and the sandbox's files both exist counts only if the owner, group
/// or mode differ, or it is not a directory; every other change counts.
pub open spec fn actually_modified(e: ChangeEntry) -> bool {
    match (e.operation, e.staged, e.source) {
        (EntryOperation::Write(SetType::Modify), Some(staged), Some(source)) => {
            staged.stat.st_gid != source.stat.st_gid || staged.stat.st_uid != source.stat.st_uid
                || staged.stat.st_mode != source.stat.st_mode || file_type(staged.stat.st_mode)
                != S_IFDIR
        },
        _ => true,
    }
}

/// A colour that a part of a line is shown in.
#[derive(Debug, Clone, Copy, PartialEq, Eq, Structural)]
pub enum Paint {
    Green,
    Yellow,
    Red,
}

/// The escape sequence that starts text in a colour.
pub open spec fn color_start(color: Paint) -> Seq<char> {
    match color {
        Paint::Green => "\x1b[32m"@,
        Paint::Yellow => "\x1b[33m"@,
        Paint::Red => "\x1b[31m"@,
    }
}

/// The escape sequence that ends coloured text.
pub open spec fn color_reset() -> Seq<char> {
    "\x1b[0m"@
}

/// `text` with `style` put back after each reset sequence in it, as the colouring crate
/// does so that a reset inside the text does not end the colour early.
pub open spec fn reset_escaped(text: Seq<char>, style: Seq<char>) -> Seq<char>
    decreases text.len(),
{
    if text.len() == 0 {
        text
    } else if text.len() >= 4 && text.take(4) == color_reset() {
        color_reset() + style + reset_escaped(text.skip(4), style)
    } else {
        seq![text[0]] + reset_escaped(text.drop_first(), style)
    }
}

/// Whether `painted` is `text` as colouring it in `color` may show it: the text itself,
/// or the colour's escape sequence, the text with the colour put back after each reset
/// in it, and a reset.
pub open spec fn painted_as(painted: Seq<char>, text: Seq<char>, color: Paint) -> bool {
    painted == text || painted == color_start(color) + reset_escaped(text, color_start(color)) + color_reset()
}

/// Calls `colored::Colorize` to colour `text` and formats the coloured string. Whether
/// colour codes are added depends on the environment (`NO_COLOR`, `CLICOLOR`, the
/// terminal), so which of the two forms comes out is not stated.
#[verifier::external_body]
pub(crate) fn paint(text: &str, color: Paint) -> (r: String)
    ensures
        painted_as(r@, text@, color),
{
    match color {
        Paint::Green => text.green().to_string(),
        Paint::Yellow => text.yellow().to_string(),
        Paint::Red => text.red().to_string(),
    }
}

/// The texts that the line of a change is made of, each with its colour: the
/// operation's symbol, then the path (the source for a removal), then the error's
/// message for an error, or the source and then the destination for a rename.
pub open spec fn display_parts(e: ChangeEntry, cwd: Seq<char>) -> Seq<(Seq<char>, Paint)> {
    let dest = shown_relative(e.destination@, cwd);
    let src = match e.source {
        Some(s) => shown_relative(s.path@, cwd),
        None => dest,
    };
    match e.operation {
        EntryOperation::Write(SetType::Create) => seq![("+"@, Paint::Green), (dest, Paint::Green)],
        EntryOperation::Write(SetType::Modify) => seq![("~"@, Paint::Yellow), (dest, Paint::Yellow)],
        EntryOperation::Remove => seq![("-"@, Paint::Red), (src, Paint::Red)],
        EntryOperation::Error(err) => seq![
            ("!"@, Paint::Red),
            (dest, Paint::Red),
            (change_error_message(err), Paint::Red),
        ],
        EntryOperation::Rename => seq![(">"@, Paint::Yellow), (src, Paint::Yellow), (dest, Paint::Yellow)],
    }
}

/// Whether `painted` holds the coloured texts of `parts`: one for each, its text as
/// colouring may show it (see `painted_as`).
pub open spec fn painted_parts(parts: Seq<(Seq<char>, Paint)>, painted: Seq<Seq<char>>) -> bool {
    &&& painted.len() == parts.len()
    &&& forall|i: int| 0 <= i < parts.len() ==> painted_as(#[trigger] painted[i], parts[i].0, parts[i].1)
}

/// The line of a change from its coloured parts.
pub open spec fn display_line(op: EntryOperation, painted: Seq<Seq<char>>) -> Seq<char> {
    let head = "   "@ + painted[0] + " "@ + painted[1];
    match op {
        EntryOperation::Error(_) => head + " (error: "@ + painted[2] + ")"@,
        EntryOperation::Rename => head + " -> "@ + painted[2],
        _ => head,
    }
}

/// A path as shown relative to `cwd`: stripped of `cwd` where it lies under it.
pub open spec fn shown_relative(path: Seq<char>, cwd: Seq<char>) -> Seq<char> {
    match strip_prefix(path, cwd) {
        Some(r) => r,
        None => path,
    }
}

/// The message of a change error.
pub open spec fn change_error_message(e: ChangeError) -> Seq<char> {
    match e {
        ChangeError::UnsupportedFileType => "Unsupported file type. Only files, directories, and symlinks are supported."@,
        ChangeError::RedirectPathNotFound => "Redirect path not found. Was the underlying path moved or deleted?"@,
    }
}

impl ChangeError {
    /// The message of the error.
    pub fn to_string(&self) -> (r: String)
        ensures
            r@ == change_error_message(*self),
    {
        match self {
            ChangeError::UnsupportedFileType => owned(
                "Unsupported file type. Only files, directories, and symlinks are supported.",
            ),
            ChangeError::RedirectPathNotFound => owned(
                "Redirect path not found. Was the underlying path moved or deleted?",
            ),
        }
    }
}

fn relative_to(path: &String, cwd: &Vec<char>) -> (r: String)
    ensures
        r@ == shown_relative(path@, cwd@),
{
    let p = chars_of(path.as_str());
    match strip_prefix_of(&p, cwd) {
        Some(x) => string_of(&x),
        None => string_of(&p),
    }
}

/// A JSON record of a change: its paths and operation as text.
#[derive(Debug, Clone)]
pub struct ChangeEntryJson {
    pub destination: String,
    pub operation: String,
    pub source: Option<String>,
    pub staged: Option<String>,
    pub tmp_path: Option<String>,
    pub error: Option<String>,
}

/// The name an operation has in JSON output.
pub open spec fn op_json_name(op: EntryOperation) -> Seq<char> {
    match op {
        EntryOperation::Write(SetType::Create) => "create"@,
        EntryOperation::Write(SetType::Modify) => "modify"@,
        EntryOperation::Remove => "remove"@,
        EntryOperation::Rename => "rename"@,
        EntryOperation::Error(_) => "error"@,
    }
}

/// The name an error has in JSON output.
pub open spec fn error_json_name(e: ChangeError) -> Seq<char> {
    match e {
        ChangeError::UnsupportedFileType => "unsupported_file_type"@,
        ChangeError::RedirectPathNotFound => "redirect_path_not_found"@,
    }
}

impl ChangeEntry {
    /// The line `status` shows for the change, with paths relative to `cwd` where under
    /// it: `+ path` for a creation, `~ path` for a modification, `- source` for a
    /// removal, `! path (error: message)` for an error and `> source -> path` for a
    /// rename, each part coloured. Whether colour codes are added depends on the
    /// environment; each coloured part holds its text.
    pub fn display(&self, cwd: &String) -> (r: Result<String, String>)
        ensures
            r matches Ok(line) && exists|painted: Seq<Seq<char>>|
                #[trigger] painted_parts(display_parts(*self, cwd@), painted) && line@ == display_line(
                    self.operation,
                    painted,
                ),
    {
        let ghost parts = display_parts(*self, cwd@);
        let cwd_c = chars_of(cwd.as_str());
        let destination = relative_to(&self.destination, &cwd_c);
        let source = match &self.source {
            Some(s) => relative_to(&s.path, &cwd_c),
            None => relative_to(&self.destination, &cwd_c),
        };
        let (sym, color) = match self.operation {
            EntryOperation::Write(SetType::Create) => ("+", Paint::Green),
            EntryOperation::Write(SetType::Modify) => ("~", Paint::Yellow),
            EntryOperation::Remove => ("-", Paint::Red),
            EntryOperation::Error(_) => ("!", Paint::Red),
            EntryOperation::Rename => (">", Paint::Yellow),
        };
        let p0 = paint(sym, color);
        let mut line = chars_of("   ");
        push_str(&mut line, p0.as_str());
        push_str(&mut line, " ");
        match self.operation {
            EntryOperation::Write(_) => {
                let p1 = paint(destination.as_str(), color);
                push_str(&mut line, p1.as_str());
                assert(painted_parts(parts, seq![p0@, p1@]));
                assert(line@ == display_line(self.operation, seq![p0@, p1@]));
            },
            EntryOperation::Remove => {
                let p1 = paint(source.as_str(), color);
                push_str(&mut line, p1.as_str());
                assert(painted_parts(parts, seq![p0@, p1@]));
                assert(line@ == display_line(self.operation, seq![p0@, p1@]));
            },
            EntryOperation::Error(e) => {
                let p1 = paint(destination.as_str(), color);
                let p2 = paint(e.to_string().as_str(), color);
                push_str(&mut line, p1.as_str());
                push_str(&mut line, " (error: ");
                push_str(&mut line, p2.as_str());
                push_str(&mut line, ")");
                assert(painted_parts(parts, seq![p0@, p1@, p2@]));
                assert(line@ == display_line(self.operation, seq![p0@, p1@, p2@]));
            },
            EntryOperation::Rename => {
                let p1 = paint(source.as_str(), color);
                let p2 = paint(destination.as_str(), color);
                push_str(&mut line, p1.as_str());
                push_str(&mut line, " -> ");
                push_str(&mut line, p2.as_str());
                assert(painted_parts(parts, seq![p0@, p1@, p2@]));
                assert(line@ == display_line(self.operation, seq![p0@, p1@, p2@]));
            },
        }
        Ok(string_of(&line))
    }

    /// Whether the change is worth showing (see `actually_modified`).
    pub fn is_actually_modified(&self) -> (r: bool)
        ensures
            r == actually_modified(*self),
    {
        if let EntryOperation::Write(SetType::Modify) = self.operation {
            if let Some(staged) = &self.staged {
                if let Some(source) = &self.source {
                    if staged.stat.st_gid != source.stat.st_gid {
                        return true;
                    }
                    if staged.stat.st_uid != source.stat.st_uid {
                        return true;
                    }
                    if staged.stat.st_mode != source.stat.st_mode {
                        return true;
                    }
                    return !staged.is_dir();
                }
            }
        }
        true
    }

    /// The change as a JSON record.
    pub fn to_json(&self) -> (r: ChangeEntryJson)
        ensures
            r.destination@ == self.destination@,
            r.operation@ == op_json_name(self.operation),
            crate::text::opt_view(r.source) == (match self.source {
                Some(s) => Some(s.path@),
                None => None,
            }),
            crate::text::opt_view(r.staged) == (match self.staged {
                Some(s) => Some(s.path@),
                None => None,
            }),
            crate::text::opt_view(r.tmp_path) == crate::text::opt_view(self.tmp_path),
            crate::text::opt_view(r.error) == (match self.operation {
                EntryOperation::Error(e) => Some(error_json_name(e)),
                _ => None,
            }),
    {
        ChangeEntryJson {
            destination: owned(self.destination.as_str()),
            operation: match self.operation {
                EntryOperation::Write(SetType::Create) => owned("create"),
                EntryOperation::Write(SetType::Modify) => owned("modify"),
                EntryOperation::Remove => owned("remove"),
                EntryOperation::Rename => owned("rename"),
                EntryOperation::Error(_) => owned("error"),
            },
            source: match &self.source {
                Some(s) => Some(owned(s.path.as_str())),
                None => None,
            },
            staged: match &self.staged {
                Some(s) => Some(owned(s.path.as_str())),
                None => None,
            },
            tmp_path: match &self.tmp_path {
                Some(p) => Some(owned(p.as_str())),
                None => None,
            },
            error: match self.operation {
                EntryOperation::Error(ChangeError::UnsupportedFileType) => Some(owned("unsupported_file_type")),
                EntryOperation::Error(ChangeError::RedirectPathNotFound) => Some(owned("redirect_path_not_found")),
                _ => None,
            },
        }
    }
}

/// The ordering that a preorder gives two items: `Less` where only `a` comes first,
/// `Equal` where they tie, `Greater` where only `b` comes first.
pub open spec fn ordering_of(le_ab: bool, le_ba: bool) -> core::cmp::Ordering {
    if le_ab && !le_ba {
        core::cmp::Ordering::Less
    } else if le_ab && le_ba {
        core::cmp::Ordering::Equal
    } else {
        core::cmp::Ordering::Greater
    }
}

fn ordering_from(le_ab: bool, le_ba: bool) -> (r: core::cmp::Ordering)
    ensures
        r == ordering_of(le_ab, le_ba),
{
    if le_ab && !le_ba {
        core::cmp::Ordering::Less
    } else if le_ab && le_ba {
        core::cmp::Ordering::Equal
    } else {
        core::cmp::Ordering::Greater
    }
}

fn path_le_of(a: &String, b: &String) -> (r: bool)
    ensures
        r == path_le(a@, b@),
{
    path_le_exec(&chars_of(a.as_str()), &chars_of(b.as_str()))
}

/// Changes with a source first, by source path from last to first; changes without one
/// last.
pub struct ReverseSource;

impl TotalPreorder<ChangeEntry> for ReverseSource {
    open spec fn le(&self, a: ChangeEntry, b: ChangeEntry) -> bool {
        match (a.source, b.source) {
            (Some(x), Some(y)) => path_le(y.path@, x.path@),
            (Some(_), None) => true,
            (None, Some(_)) => false,
            (None, None) => true,
        }
    }

    fn le_exec(&self, a: &ChangeEntry, b: &ChangeEntry) -> (r: bool) {
        match (&a.source, &b.source) {
            (Some(x), Some(y)) => path_le_of(&y.path, &x.path),
            (Some(_), None) => true,
            (None, Some(_)) => false,
            (None, None) => true,
        }
    }

    proof fn lemma_total(&self, a: ChangeEntry, b: ChangeEntry) {
        if a.source is Some && b.source is Some {
            lemma_path_total(a.source->0.path@, b.source->0.path@);
        }
    }

    proof fn lemma_trans(&self, a: ChangeEntry, b: ChangeEntry, c: ChangeEntry) {
        if a.source is Some && b.source is Some && c.source is Some {
            lemma_path_trans(c.source->0.path@, b.source->0.path@, a.source->0.path@);
        }
    }
}

/// Changes by destination path.
pub struct Destination;

impl TotalPreorder<ChangeEntry> for Destination {
    open spec fn le(&self, a: ChangeEntry, b: ChangeEntry) -> bool {
        path_le(a.destination@, b.destination@)
    }

    fn le_exec(&self, a: &ChangeEntry, b: &ChangeEntry) -> (r: bool) {
        path_le_of(&a.destination, &b.destination)
    }

    proof fn lemma_total(&self, a: ChangeEntry, b: ChangeEntry) {
        lemma_path_total(a.destination@, b.destination@);
    }

    proof fn lemma_trans(&self, a: ChangeEntry, b: ChangeEntry, c: ChangeEntry) {
        lemma_path_trans(a.destination@, b.destination@, c.destination@);
    }
}

/// Changes without a staged file first, by destination from last to first; then those
/// with one, by staged path from last to first.
pub struct StagedDescending;

impl TotalPreorder<ChangeEntry> for StagedDescending {
    open spec fn le(&self, a: ChangeEntry, b: ChangeEntry) -> bool {
        match (a.staged, b.staged) {
            (Some(x), Some(y)) => path_le(y.path@, x.path@),
            (Some(_), None) => false,
            (None, Some(_)) => true,
            (None, None) => path_le(b.destination@, a.destination@),
        }
    }

    fn le_exec(&self, a: &ChangeEntry, b: &ChangeEntry) -> (r: bool) {
        match (&a.staged, &b.staged) {
            (Some(x), Some(y)) => path_le_of(&y.path, &x.path),
            (Some(_), None) => false,
            (None, Some(_)) => true,
            (None, None) => path_le_of(&b.destination, &a.destination),
        }
    }

    proof fn lemma_total(&self, a: ChangeEntry, b: ChangeEntry) {
        if a.staged is Some && b.staged is Some {
            lemma_path_total(a.staged->0.path@, b.staged->0.path@);
        } else if a.staged is None && b.staged is None {
            lemma_path_total(a.destination@, b.destination@);
        }
    }

    proof fn lemma_trans(&self, a: ChangeEntry, b: ChangeEntry, c: ChangeEntry) {
        if a.staged is Some && b.staged is Some && c.staged is Some {
            lemma_path_trans(c.staged->0.path@, b.staged->0.path@, a.staged->0.path@);
        } else if a.staged is None && b.staged is None && c.staged is None {
            lemma_path_trans(c.destination@, b.destination@, a.destination@);
        }
    }
}

/// Compares two changes by source path, from last to first; changes without a source
/// come last.
pub fn by_reverse_source(a: &ChangeEntry, b: &ChangeEntry) -> (r: core::cmp::Ordering)
    ensures
        r == ordering_of(ReverseSource.le(*a, *b), ReverseSource.le(*b, *a)),
{
    ordering_from(ReverseSource.le_exec(a, b), ReverseSource.le_exec(b, a))
}

/// Compares two changes by destination path.
pub fn by_destination(a: &ChangeEntry, b: &ChangeEntry) -> (r: core::cmp::Ordering)
    ensures
        r == ordering_of(Destination.le(*a, *b), Destination.le(*b, *a)),
{
    ordering_from(Destination.le_exec(a, b), Destination.le_exec(b, a))
}

/// Compares two changes by staged path, from last to first; changes without a staged
/// file come first, by destination from last to first.
pub fn by_staged_descending(a: &ChangeEntry, b: &ChangeEntry) -> (r: core::cmp::Ordering)
    ensures
        r == ordering_of(StagedDescending.le(*a, *b), StagedDescending.le(*b, *a)),
{
    ordering_from(StagedDescending.le_exec(a, b), StagedDescending.le_exec(b, a))
}

/// An order to sort changes in.
#[derive(Debug, Clone, Copy, PartialEq, Eq, Structural)]
pub enum ChangeOrder {
    ReverseSource,
    Destination,
    StagedDescending,
}

/// The stable sort of `s` in the order `o`.
pub open spec fn sorted_changes(s: Seq<ChangeEntry>, o: ChangeOrder) -> Seq<ChangeEntry> {
    match o {
        ChangeOrder::ReverseSource => stable_sorted(&ReverseSource, s),
        ChangeOrder::Destination => stable_sorted(&Destination, s),
        ChangeOrder::StagedDescending => stable_sorted(&StagedDescending, s),
    }
}

/// The path a pattern names: relative patterns are read from `cwd`, then each `..`
/// steps up.
pub open spec fn pattern_path(cwd: Seq<char>, p: Seq<char>) -> Seq<char> {
    let abs = if p.len() > 0 && p[0] == '/' {
        p
    } else {
        cwd + "/"@ + p
    };
    rebuild(normalized_components(components(abs)))
}

/// The glob a pattern becomes, given the destinations of the changes: a leading `!`
/// negates; a path ending in `/`, or one that some destination lies under, matches all
/// below it.
pub open spec fn expanded_pattern(dests: Seq<Seq<char>>, cwd: Seq<char>, raw: Seq<char>) -> Seq<char> {
    let negate = raw.len() > 0 && raw[0] == '!';
    let p = if negate {
        raw.skip(1)
    } else {
        raw
    };
    let n = pattern_path(cwd, p);
    let q = if n.len() > 0 && n.last() == '/' {
        n + "**"@
    } else if exists|i: int| 0 <= i < dests.len() && (n + "/"@).is_prefix_of(#[trigger] dests[i]) {
        n + "/**"@
    } else {
        n
    };
    if negate {
        "!"@ + q
    } else {
        q
    }
}

/// Whether a destination is picked: with no patterns, destinations under `cwd`; else
/// those that some pattern's glob matches.
pub open spec fn picked(dest: Seq<char>, globs: Seq<Seq<char>>, cwd: Seq<char>) -> bool {
    if globs.len() == 0 {
        (cwd + "/"@).is_prefix_of(dest)
    } else {
        exists|i: int| 0 <= i < globs.len() && glob_matches(#[trigger] globs[i], dest)
    }
}

/// The changes whose destinations are picked, in order.
pub open spec fn picked_entries(s: Seq<EntryView>, globs: Seq<Seq<char>>, cwd: Seq<char>) -> Seq<EntryView>
    decreases s.len(),
{
    if s.len() == 0 {
        s
    } else if picked(s.last().0, globs, cwd) {
        picked_entries(s.drop_last(), globs, cwd).push(s.last())
    } else {
        picked_entries(s.drop_last(), globs, cwd)
    }
}

/// A selection keeps at most the changes it is made from.
proof fn lemma_picked_entries_len(s: Seq<EntryView>, globs: Seq<Seq<char>>, cwd: Seq<char>)
    ensures
        picked_entries(s, globs, cwd).len() <= s.len(),
    decreases s.len(),
{
    if s.len() > 0 {
        lemma_picked_entries_len(s.drop_last(), globs, cwd);
    }
}

/// A selection of changes (as `matching` makes it) never holds more changes than it was
/// made from, so the count of changes left out is the number of changes less the number
/// selected, never cut off at zero.
pub proof fn lemma_non_matching_count(all: ChangeEntries, cwd: Seq<char>, globs: Seq<Seq<char>>, selected: ChangeEntries)
    requires
        entry_views(selected.0@) == picked_entries(entry_views(all.0@), globs, cwd),
    ensures
        selected.0.len() <= all.0.len(),
{
    lemma_picked_entries_len(entry_views(all.0@), globs, cwd);
    assert(entry_views(selected.0@).len() == selected.0@.len());
    assert(entry_views(all.0@).len() == all.0@.len());
}

/// The destinations of a list of changes.
pub open spec fn destinations(s: Seq<ChangeEntry>) -> Seq<Seq<char>> {
    s.map_values(|e: ChangeEntry| e.destination@)
}

impl ChangeEntries {
    /// The number of changes.
    pub fn len(&self) -> (r: usize)
        ensures
            r == self.0.len(),
    {
        self.0.len()
    }

    /// Whether there are no changes.
    pub fn is_empty(&self) -> (r: bool)
        ensures
            r == (self.0.len() == 0),
    {
        self.0.len() == 0
    }

    /// Sorts the changes stably in the order `order`.
    pub fn sort_by(&mut self, order: ChangeOrder)
        ensures
            final(self).0@ == sorted_changes(old(self).0@, order),
            final(self).0@.len() == old(self).0@.len(),
    {
        let mut v: Vec<ChangeEntry> = Vec::new();
        std::mem::swap(&mut v, &mut self.0);
        let sorted = match order {
            ChangeOrder::ReverseSource => stable_sort(v, &ReverseSource),
            ChangeOrder::Destination => stable_sort(v, &Destination),
            ChangeOrder::StagedDescending => stable_sort(v, &StagedDescending),
        };
        self.0 = sorted;
    }

    /// The glob that pattern `raw` becomes for these changes.
    fn expand_pattern(&self, cwd: &String, raw: &String) -> (r: String)
        ensures
            r@ == expanded_pattern(destinations(self.0@), cwd@, raw@),
    {
        let raw_c = chars_of(raw.as_str());
        let negate = raw_c.len() > 0 && raw_c[0] == '!';
        let p = if negate {
            crate::text::slice_chars(&raw_c, 1, raw_c.len())
        } else {
            copy_chars(&raw_c)
        };
        assert(negate ==> p@ =~= raw@.skip(1));
        let abs = if p.len() > 0 && p[0] == '/' {
            p
        } else {
            let mut a = chars_of(cwd.as_str());
            push_str(&mut a, "/");
            push_all(&mut a, &p);
            a
        };
        let cs = normalize_components_of(&abs);
        let n = rebuild_of(&cs);
        let ghost dests = destinations(self.0@);
        let q = if n.len() > 0 && n[n.len() - 1] == '/' {
            let mut q = copy_chars(&n);
            push_str(&mut q, "**");
            q
        } else {
            let mut with_slash = copy_chars(&n);
            push_str(&mut with_slash, "/");
            let mut found = false;
            let mut i: usize = 0;
            while i < self.0.len()
                invariant
                    i <= self.0.len(),
                    dests == destinations(self.0@),
                    found <==> exists|k: int| 0 <= k < i && with_slash@.is_prefix_of(#[trigger] dests[k]),
                decreases self.0.len() - i,
            {
                let d = chars_of(self.0[i].destination.as_str());
                assert(dests[i as int] == d@);
                if has_prefix(&d, &with_slash) {
                    found = true;
                }
                i = i + 1;
            }
            if found {
                let mut q = copy_chars(&n);
                push_str(&mut q, "/**");
                q
            } else {
                n
            }
        };
        let r = if negate {
            let mut r = chars_of("!");
            push_all(&mut r, &q);
            r
        } else {
            q
        };
        string_of(&r)
    }

    /// The changes that `patterns` pick, in order (see `picked`): each pattern is read
    /// from `cwd`, with `!` negating it, `..` stepping up, and directories matching all
    /// below them.
    pub fn matching(&self, cwd: &String, patterns: &Vec<String>) -> (r: ChangeEntries)
        ensures
            ({
                let globs = str_views(patterns@).map_values(
                    |raw: Seq<char>| expanded_pattern(destinations(self.0@), cwd@, raw),
                );
                entry_views(r.0@) == picked_entries(entry_views(self.0@), globs, cwd@)
            }),
    {
        let ghost dests = destinations(self.0@);
        let ghost globs = str_views(patterns@).map_values(
            |raw: Seq<char>| expanded_pattern(dests, cwd@, raw),
        );
        let mut pats: Vec<String> = Vec::new();
        let mut i: usize = 0;
        while i < patterns.len()
            invariant
                i <= patterns.len(),
                dests == destinations(self.0@),
                globs == str_views(patterns@).map_values(
                    |raw: Seq<char>| expanded_pattern(dests, cwd@, raw),
                ),
                str_views(pats@) == globs.take(i as int),
            decreases patterns.len() - i,
        {
            let g = self.expand_pattern(cwd, &patterns[i]);
            let ghost before = pats@;
            pats.push(g);
            assert(str_views(pats@) =~= str_views(before).push(g@));
            assert(globs[i as int] == expanded_pattern(dests, cwd@, patterns@[i as int]@));
            assert(str_views(pats@) =~= globs.take(i + 1));
            i = i + 1;
        }
        assert(globs.take(patterns.len() as int) =~= globs);
        let mut cwd_slash = chars_of(cwd.as_str());
        push_str(&mut cwd_slash, "/");
        let ghost ev = entry_views(self.0@);
        let mut out: Vec<ChangeEntry> = Vec::new();
        let mut j: usize = 0;
        while j < self.0.len()
            invariant
                j <= self.0.len(),
                ev == entry_views(self.0@),
                str_views(pats@) == globs,
                cwd_slash@ == cwd@ + "/"@,
                entry_views(out@) == picked_entries(ev.take(j as int), globs, cwd@),
            decreases self.0.len() - j,
        {
            proof {
                assert(ev.take(j + 1).drop_last() =~= ev.take(j as int));
                assert(ev.take(j + 1).last() == entry_view(self.0@[j as int]));
            }
            let e = &self.0[j];
            let keep = if pats.len() == 0 {
                has_prefix(&chars_of(e.destination.as_str()), &cwd_slash)
            } else {
                let mut any = false;
                let mut k: usize = 0;
                while k < pats.len()
                    invariant
                        k <= pats.len(),
                        str_views(pats@) == globs,
                        any <==> exists|t: int| 0 <= t < k && glob_matches(#[trigger] globs[t], e.destination@),
                    decreases pats.len() - k,
                {
                    assert(globs[k as int] == pats@[k as int]@);
                    if glob_match(pats[k].as_str(), e.destination.as_str()) {
                        any = true;
                    }
                    k = k + 1;
                }
                any
            };
            if keep {
                let ghost before = out@;
                let c = copy_entry(e);
                out.push(c);
                assert(entry_views(out@) =~= entry_views(before).push(entry_view(*e)));
            }
            j = j + 1;
        }
        assert(ev.take(self.0.len() as int) =~= ev);
        ChangeEntries(out)
    }

    /// How many changes are left out of `matching`.
    pub fn calculate_non_matching_count(all: &ChangeEntries, matching: &ChangeEntries) -> (r: usize)
        ensures
            r == if all.0.len() >= matching.0.len() {
                all.0.len() - matching.0.len()
            } else {
                0
            },
    {
        if all.0.len() >= matching.0.len() {
            all.0.len() - matching.0.len()
        } else {
            0
        }
    }
}


/// Whether `a` comes no later than `b` in the order `o`.
pub open spec fn order_le(o: ChangeOrder, a: ChangeEntry, b: ChangeEntry) -> bool {
    match o {
        ChangeOrder::ReverseSource => ReverseSource.le(a, b),
        ChangeOrder::Destination => Destination.le(a, b),
        ChangeOrder::StagedDescending => StagedDescending.le(a, b),
    }
}

/// The comparisons agree with themselves both ways: `a` is less than `b` exactly when `b`
/// is greater than `a`, and they are equal both ways or neither.
pub proof fn lemma_comparison_flips(o: ChangeOrder, a: ChangeEntry, b: ChangeEntry)
    ensures
        ordering_of(order_le(o, a, b), order_le(o, b, a)) == core::cmp::Ordering::Less
            <==> ordering_of(order_le(o, b, a), order_le(o, a, b)) == core::cmp::Ordering::Greater,
        ordering_of(order_le(o, a, b), order_le(o, b, a)) == core::cmp::Ordering::Equal
            <==> ordering_of(order_le(o, b, a), order_le(o, a, b)) == core::cmp::Ordering::Equal,
{
    match o {
        ChangeOrder::ReverseSource => ReverseSource.lemma_total(a, b),
        ChangeOrder::Destination => Destination.lemma_total(a, b),
        ChangeOrder::StagedDescending => StagedDescending.lemma_total(a, b),
    }
}

} // verus!
