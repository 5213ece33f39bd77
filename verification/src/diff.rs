//! What the sandboxed command changed, read off the overlay's upper directory.

use crate::order::{
    is_stable_sort, lemma_stable_sort_contains, lemma_stable_sorted, sorted, stable_sort,
    stable_sorted, views, Order,
};
use crate::path::{
    components, is_below, is_plain, join, joined, lemma_path_order, lemma_path_transitive,
    lemma_relative_joined, path_le, path_leq, relative, spans, strip_prefix, ByPath, SLASH,
};
use crate::path_set::{
    find, lemma_sorted_set, lemma_sorted_set_members, sorted_set, stands_for, to_sorted_set,
};
use crate::text::{
    decimal, display_path, is_c_string, nul_position, push_decimal, shown_as_is, utf8_lossy,
};
use vstd::prelude::*;
use vstd::slice::slice_to_vec;
use vstd::string::StringExecFns;
use vstd::utf8::encode_utf8;

verus! {

/// The kind of change detected in the sandbox upper directory.
#[derive(Debug, Clone, Copy, PartialEq, Eq, Structural)]
pub enum ChangeKind {
    /// File or directory was created inside the sandbox.
    Added,
    /// File was modified inside the sandbox.
    Modified,
    /// File or directory was deleted inside the sandbox.
    Deleted,
}

/// A single filesystem change recorded in the overlay upper directory.
#[derive(Debug, PartialEq, Eq)]
pub struct Change {
    /// The absolute path on the real filesystem that was affected.
    pub real_path: Vec<u8>,
    /// The corresponding path inside the upper directory (source for apply).
    pub upper_path: Vec<u8>,
    pub kind: ChangeKind,
}

/// The model of a [`Change`].
pub struct ChangeView {
    pub real_path: Seq<u8>,
    pub upper_path: Seq<u8>,
    pub kind: ChangeKind,
}

impl View for Change {
    type V = ChangeView;

    open spec fn view(&self) -> ChangeView {
        ChangeView {
            real_path: self.real_path@,
            upper_path: self.upper_path@,
            kind: self.kind,
        }
    }
}

/// What was found at one path below the upper directory.
#[derive(Debug, PartialEq, Eq)]
pub struct UpperEntry {
    pub path: Vec<u8>,
    /// The entry is a character special device.
    pub char_device: bool,
    /// The device number that the entry stands for.
    pub rdev: u64,
    /// The entry is a directory, not a link to one.
    pub dir: bool,
    /// What came of looking up the attributes that mark an opaque directory.
    pub lookups: Vec<XattrLookup>,
    /// Something exists at the corresponding path of the real filesystem, with links followed.
    pub real_exists: bool,
    /// A symbolic link stands at the corresponding path, if only one that leads nowhere.
    pub real_link: bool,
    /// A directory stands at the corresponding path, not a link to one.
    pub real_dir: bool,
    /// The paths that the corresponding directory of the lower layer holds, at any depth.
    pub held: Vec<Vec<u8>>,
}

/// The outcome of looking up one extended attribute.
#[derive(Debug, PartialEq, Eq)]
pub enum XattrLookup {
    /// The lookup could not be made.
    Failed,
    /// The attribute is not set or cannot be read.
    Unset,
    /// The attribute has this value.
    Value(Vec<u8>),
}

/// The value of the attribute that was looked up is `y`.
pub open spec fn says_opaque(lookup: XattrLookup) -> bool {
    match lookup {
        XattrLookup::Value(v) => v@ == seq![121u8],
        _ => false,
    }
}

/// Some attribute marks the directory as opaque.
pub open spec fn marked_opaque(lookups: Seq<XattrLookup>) -> bool {
    exists|i: int| 0 <= i < lookups.len() && says_opaque(#[trigger] lookups[i])
}

/// The model of an [`UpperEntry`].
pub struct EntryView {
    pub path: Seq<u8>,
    pub char_device: bool,
    pub rdev: u64,
    pub dir: bool,
    /// The entry carries the overlay's mark of an opaque directory.
    pub opaque: bool,
    pub real_exists: bool,
    pub real_link: bool,
    pub real_dir: bool,
    pub held: Seq<Seq<u8>>,
}

impl View for UpperEntry {
    type V = EntryView;

    open spec fn view(&self) -> EntryView {
        EntryView {
            path: self.path@,
            char_device: self.char_device,
            rdev: self.rdev,
            dir: self.dir,
            opaque: marked_opaque(self.lookups@),
            real_exists: self.real_exists,
            real_link: self.real_link,
            real_dir: self.real_dir,
            held: views(self.held@),
        }
    }
}

/// A path of the upper directory's contents that does not lie below the upper directory.
#[derive(Debug, Clone, Copy, PartialEq, Eq)]
pub struct PrefixNotFound;

/// The overlay marks a deleted file by a character special device with number 0.
pub open spec fn whiteout(e: EntryView) -> bool {
    e.char_device && e.rdev == 0
}

/// The change that an entry of the upper directory records, if it records one.
///
/// A whiteout records a deletion. A directory is there because something below it changed,
/// unless it is opaque and no directory is its counterpart. Whatever is recorded was modified
/// where something stood in its place, were it a link that leads nowhere, and added elsewhere.
pub open spec fn entry_kind(e: EntryView) -> Option<ChangeKind> {
    if whiteout(e) {
        Some(ChangeKind::Deleted)
    } else if e.dir && (!e.opaque || e.real_dir) {
        None
    } else if e.real_exists || e.real_link {
        Some(ChangeKind::Modified)
    } else {
        Some(ChangeKind::Added)
    }
}

/// The path on the real filesystem that `path` stands for: the same path seen from the root.
pub open spec fn real_path_of(upper: Seq<u8>, path: Seq<u8>) -> Option<Seq<u8>> {
    match relative(path, upper) {
        Some(rel) => Some(joined(seq![SLASH], rel)),
        None => None,
    }
}

/// The changes that the entries record, in their order.
pub open spec fn recorded(upper: Seq<u8>, entries: Seq<EntryView>) -> Seq<ChangeView>
    decreases entries.len(),
{
    if entries.len() == 0 {
        Seq::empty()
    } else {
        let before = recorded(upper, entries.drop_last());
        let e = entries.last();
        match (entry_kind(e), real_path_of(upper, e.path)) {
            (Some(kind), Some(real_path)) => before.push(
                ChangeView { real_path, upper_path: e.path, kind },
            ),
            _ => before,
        }
    }
}

/// Ascending order of the real paths.
pub struct ByRealPath;

impl Order for ByRealPath {
    type Item = Change;

    open spec fn leq(a: ChangeView, b: ChangeView) -> bool {
        path_leq(a.real_path, b.real_path)
    }

    proof fn total(a: ChangeView, b: ChangeView) {
        lemma_path_order(a.real_path, b.real_path);
    }

    proof fn transitive(a: ChangeView, b: ChangeView, c: ChangeView) {
        lemma_path_transitive(a.real_path, b.real_path, c.real_path);
    }

    fn le(a: &Change, b: &Change) -> (r: bool) {
        let r = path_le(a.real_path.as_slice(), b.real_path.as_slice());
        assert(a@.real_path == a.real_path@ && b@.real_path == b.real_path@);
        assert(Self::leq(a@, b@) == path_leq(a.real_path@, b.real_path@));
        r
    }
}

/// Every entry lies below the upper directory.
pub open spec fn all_below(upper: Seq<u8>, entries: Seq<EntryView>) -> bool {
    forall|i: int| 0 <= i < entries.len() ==> is_below(#[trigger] entries[i].path, upper)
}

/// The entry is an opaque directory in the place of a real one: it hides what that holds.
pub open spec fn hides(e: EntryView) -> bool {
    e.dir && e.opaque && !whiteout(e) && e.real_dir
}

/// The real paths that the entries hide, entry by entry.
pub open spec fn hidden(entries: Seq<EntryView>) -> Seq<Seq<u8>>
    decreases entries.len(),
{
    if entries.len() == 0 {
        Seq::empty()
    } else if hides(entries.last()) {
        hidden(entries.drop_last()) + entries.last().held
    } else {
        hidden(entries.drop_last())
    }
}

/// The real paths that the entries stand for.
pub open spec fn real_paths(upper: Seq<u8>, entries: Seq<EntryView>) -> Seq<Seq<u8>> {
    Seq::new(entries.len(), |i: int| real_path_of(upper, entries[i].path)->Some_0)
}

/// The real paths that are gone although no entry says so: each is hidden, and no entry stands in
/// its place.
pub open spec fn vanished(upper: Seq<u8>, entries: Seq<EntryView>) -> Seq<Seq<u8>> {
    sorted_set(hidden(entries)).filter(
        |p: Seq<u8>| !stands_for(real_paths(upper, entries), p),
    )
}

/// Where below the upper directory the real path `path` would be recorded.
pub open spec fn upper_path_of(upper: Seq<u8>, path: Seq<u8>) -> Seq<u8> {
    match relative(path, seq![SLASH]) {
        Some(rel) => joined(upper, rel),
        None => joined(upper, path),
    }
}

/// The deletion of the real path `path`.
pub open spec fn deletion(upper: Seq<u8>, path: Seq<u8>) -> ChangeView {
    ChangeView {
        real_path: path,
        upper_path: upper_path_of(upper, path),
        kind: ChangeKind::Deleted,
    }
}

/// The deletions of the real paths that are gone although no entry says so.
pub open spec fn deletions(upper: Seq<u8>, paths: Seq<Seq<u8>>) -> Seq<ChangeView> {
    Seq::new(paths.len(), |i: int| deletion(upper, paths[i]))
}

/// The changes that the entries record, and the deletions of what they hide, in ascending order of
/// the real paths.
pub open spec fn collected(upper: Seq<u8>, entries: Seq<EntryView>) -> Seq<ChangeView> {
    stable_sorted::<ByRealPath>(
        recorded(upper, entries) + deletions(upper, vanished(upper, entries)),
    )
}

/// Tells whether an entry of the upper directory is an overlay whiteout.
pub fn is_whiteout(char_device: bool, rdev: u64) -> (b: bool)
    ensures
        b == (char_device && rdev == 0),
{
    char_device && rdev == 0
}

/// The path on the real filesystem that a path below the upper directory stands for.
pub fn real_path(upper: &[u8], path: &[u8]) -> (out: Result<Vec<u8>, PrefixNotFound>)
    ensures
        match (out, real_path_of(upper@, path@)) {
            (Ok(p), Some(q)) => p@ == q,
            (Err(_), None) => true,
            _ => false,
        },
{
    match strip_prefix(path, upper) {
        Some(rel) => {
            let root: Vec<u8> = vec![SLASH];
            assert(root@ == seq![SLASH]);
            Ok(join(root.as_slice(), rel.as_slice()))
        },
        None => Err(PrefixNotFound),
    }
}

/// The change that one entry of the upper directory records.
pub fn classify(e: &UpperEntry) -> (kind: Option<ChangeKind>)
    ensures
        kind == entry_kind(e@),
{
    if is_whiteout(e.char_device, e.rdev) {
        Some(ChangeKind::Deleted)
    } else if e.dir && (!is_opaque_dir(&e.lookups) || e.real_dir) {
        None
    } else if e.real_exists || e.real_link {
        Some(ChangeKind::Modified)
    } else {
        Some(ChangeKind::Added)
    }
}

/// What was found at one path below a directory of the real filesystem.
#[derive(Debug, PartialEq, Eq)]
pub struct RealEntry {
    pub path: Vec<u8>,
    /// The number of the device that the entry is stored on.
    pub dev: u64,
}

/// The model of a [`RealEntry`].
pub struct RealView {
    pub path: Seq<u8>,
    pub dev: u64,
}

impl View for RealEntry {
    type V = RealView;

    open spec fn view(&self) -> RealView {
        RealView { path: self.path@, dev: self.dev }
    }
}

/// The paths of the entries that are stored on the device `dev`, in their order.
pub open spec fn stored_on(dev: u64, found: Seq<RealView>) -> Seq<Seq<u8>>
    decreases found.len(),
{
    if found.len() == 0 {
        Seq::empty()
    } else if found.last().dev == dev {
        stored_on(dev, found.drop_last()).push(found.last().path)
    } else {
        stored_on(dev, found.drop_last())
    }
}

/// The paths among those found that belong to the lower layer, which is the root filesystem alone:
/// what is mounted over it was never seen in the sandbox.
pub fn lower_paths(root_dev: u64, found: &Vec<RealEntry>) -> (paths: Vec<Vec<u8>>)
    ensures
        views(paths@) == stored_on(root_dev, views(found@)),
{
    let mut paths: Vec<Vec<u8>> = Vec::new();
    let ghost all = views(found@);
    let mut i: usize = 0;
    assert(views(paths@) == stored_on(root_dev, all.take(0)));
    while i < found.len()
        invariant
            i <= found@.len(),
            all == views(found@),
            views(paths@) == stored_on(root_dev, all.take(i as int)),
        decreases found@.len() - i,
    {
        let ghost before = views(paths@);
        proof {
            assert(all.take(i + 1).drop_last() == all.take(i as int));
            assert(all.take(i + 1).last() == found@[i as int]@);
        }
        if found[i].dev == root_dev {
            paths.push(slice_to_vec(found[i].path.as_slice()));
            assert(views(paths@) == before.push(found@[i as int].path@));
        }
        i = i + 1;
    }
    assert(all.take(i as int) == all);
    paths
}

/// Appends `more` to `paths`.
fn extend(paths: &mut Vec<Vec<u8>>, more: &Vec<Vec<u8>>)
    ensures
        views(final(paths)@) == views(old(paths)@) + views(more@),
{
    let ghost start = views(paths@);
    let mut i: usize = 0;
    assert(views(paths@) == start + views(more@).take(0));
    while i < more.len()
        invariant
            i <= more@.len(),
            views(paths@) == start + views(more@).take(i as int),
        decreases more@.len() - i,
    {
        let ghost before = views(paths@);
        paths.push(slice_to_vec(more[i].as_slice()));
        assert(views(paths@) == before.push(more@[i as int]@));
        assert(views(more@).take(i + 1) == views(more@).take(i as int).push(more@[i as int]@));
        i = i + 1;
    }
    assert(views(more@).take(i as int) == views(more@));
}

/// The deletion of a real path that no entry records.
fn delete(upper: &[u8], path: &[u8]) -> (change: Change)
    ensures
        change@ == deletion(upper@, path@),
{
    let root: Vec<u8> = vec![SLASH];
    assert(root@ == seq![SLASH]);
    let upper_path = match strip_prefix(path, root.as_slice()) {
        Some(rel) => join(upper, rel.as_slice()),
        None => join(upper, path),
    };
    Change { real_path: slice_to_vec(path), upper_path, kind: ChangeKind::Deleted }
}

/// The deletions of those among `hidden` in whose place nothing stands. `present` holds what does.
fn find_vanished(upper: &[u8], hidden: Vec<Vec<u8>>, present: Vec<Vec<u8>>) -> (out: Vec<Change>)
    ensures
        views(out@) == deletions(
            upper@,
            sorted_set(views(hidden@)).filter(|p: Seq<u8>| !stands_for(views(present@), p)),
        ),
{
    let ghost there = views(present@);
    let ghost gone = |p: Seq<u8>| !stands_for(there, p);
    let paths = to_sorted_set(hidden);
    let present = stable_sort::<ByPath>(present);
    let ghost all = views(paths@);
    proof {
        lemma_stable_sorted::<ByPath>(there);
    }
    let mut out: Vec<Change> = Vec::new();
    let mut i: usize = 0;
    proof {
        reveal(Seq::filter);
        assert(all.take(0) == Seq::<Seq<u8>>::empty());
        assert(views(out@) == deletions(upper@, all.take(0).filter(gone)));
    }
    while i < paths.len()
        invariant
            i <= paths@.len(),
            all == views(paths@),
            is_stable_sort::<ByPath>(there, views(present@)),
            gone == (|p: Seq<u8>| !stands_for(there, p)),
            views(out@) == deletions(upper@, all.take(i as int).filter(gone)),
        decreases paths@.len() - i,
    {
        let path = &paths[i];
        let ghost before = views(out@);
        let ghost kept = all.take(i as int).filter(gone);
        proof {
            reveal(Seq::filter);
            assert(all.take(i + 1).drop_last() == all.take(i as int));
            assert(all.take(i + 1).last() == path@);
            lemma_same_members(there, views(present@), path@);
        }
        if !find(&present, path.as_slice()) {
            let change = delete(upper, path.as_slice());
            out.push(change);
            proof {
                assert(views(out@) == before.push(change@));
                assert(all.take(i + 1).filter(gone) == kept.push(path@));
                assert(deletions(upper@, kept.push(path@)) == deletions(upper@, kept).push(
                    deletion(upper@, path@),
                ));
            }
        }
        i = i + 1;
    }
    assert(all.take(i as int) == all);
    out
}

/// Sorting does not change which paths are stood for.
proof fn lemma_same_members(all: Seq<Seq<u8>>, out: Seq<Seq<u8>>, path: Seq<u8>)
    requires
        is_stable_sort::<ByPath>(all, out),
    ensures
        stands_for(all, path) == stands_for(out, path),
{
    if stands_for(all, path) {
        let k = choose|k: int| 0 <= k < all.len() && components(#[trigger] all[k]) == components(path);
        lemma_stable_sort_contains::<ByPath>(all, out, all[k]);
        assert(all.contains(all[k]));
        let l = choose|l: int| 0 <= l < out.len() && out[l] == all[k];
        assert(components(out[l]) == components(path));
    }
    if stands_for(out, path) {
        let k = choose|k: int| 0 <= k < out.len() && components(#[trigger] out[k]) == components(path);
        lemma_stable_sort_contains::<ByPath>(all, out, out[k]);
        assert(out.contains(out[k]));
        let l = choose|l: int| 0 <= l < all.len() && all[l] == out[k];
        assert(components(all[l]) == components(path));
    }
}

/// Collects all changes recorded in the overlay upper directory, ordered by real path.
///
/// What an opaque directory hides of a real one, and does not itself hold, is deleted.
/// Fails where an entry does not lie below the upper directory.
pub fn collect_changes(upper: &[u8], entries: &Vec<UpperEntry>) -> (out: Result<
    Vec<Change>,
    PrefixNotFound,
>)
    ensures
        out is Ok == all_below(upper@, views(entries@)),
        out is Ok ==> views(out->Ok_0@) == collected(upper@, views(entries@)),
{
    let mut changes: Vec<Change> = Vec::new();
    let mut held: Vec<Vec<u8>> = Vec::new();
    let mut present: Vec<Vec<u8>> = Vec::new();
    let ghost all = views(entries@);
    let mut i: usize = 0;
    assert(views(held@) == hidden(all.take(0)));
    assert(views(present@) == real_paths(upper@, all.take(0)));
    while i < entries.len()
        invariant
            i <= entries@.len(),
            all == views(entries@),
            forall|j: int| 0 <= j < i ==> is_below(#[trigger] all[j].path, upper@),
            views(changes@) == recorded(upper@, all.take(i as int)),
            views(held@) == hidden(all.take(i as int)),
            views(present@) == real_paths(upper@, all.take(i as int)),
        decreases entries@.len() - i,
    {
        let entry = &entries[i];
        let ghost before = views(changes@);
        let ghost there = views(present@);
        proof {
            assert(all.take(i + 1).drop_last() == all.take(i as int));
            assert(all.take(i + 1).last() == entry@);
        }
        let real_path = match real_path(upper, entry.path.as_slice()) {
            Ok(p) => p,
            Err(e) => {
                assert(!is_below(all[i as int].path, upper@));
                return Err(e);
            },
        };
        present.push(slice_to_vec(real_path.as_slice()));
        proof {
            assert(views(present@) == there.push(real_path@));
            assert(real_paths(upper@, all.take(i + 1)) == real_paths(
                upper@,
                all.take(i as int),
            ).push(real_path@));
        }
        if entry.dir && entry.real_dir && is_opaque_dir(&entry.lookups) && !is_whiteout(
            entry.char_device,
            entry.rdev,
        ) {
            extend(&mut held, &entry.held);
        }
        if let Some(kind) = classify(entry) {
            let change = Change {
                real_path,
                upper_path: slice_to_vec(entry.path.as_slice()),
                kind,
            };
            changes.push(change);
            assert(views(changes@) == before.push(change@));
        }
        i = i + 1;
    }
    assert(all.take(i as int) == all);
    let ghost listed = views(changes@);
    let mut more = find_vanished(upper, held, present);
    let ghost rest = views(more@);
    changes.append(&mut more);
    assert(views(changes@) == listed + rest);
    Ok(stable_sort::<ByRealPath>(changes))
}

/// The extended attributes that mark an opaque directory, in the order in which they are read.
pub fn opaque_attributes() -> (names: Vec<&'static str>)
    ensures
        names@ == seq!["trusted.overlay.opaque", "user.overlay.opaque"],
{
    vec!["trusted.overlay.opaque", "user.overlay.opaque"]
}

/// Tells from the lookups of its attributes whether a directory is opaque: newly created, and no
/// mere copy of a directory below.
pub fn is_opaque_dir(lookups: &Vec<XattrLookup>) -> (b: bool)
    ensures
        b == marked_opaque(lookups@),
{
    let mut i: usize = 0;
    while i < lookups.len()
        invariant
            i <= lookups@.len(),
            forall|j: int| 0 <= j < i ==> !says_opaque(#[trigger] lookups@[j]),
        decreases lookups@.len() - i,
    {
        if let XattrLookup::Value(v) = &lookups[i] {
            if v.len() == 1 && v[0] == 121 {
                assert(v@ == seq![121u8]);
                assert(says_opaque(lookups@[i as int]));
                return true;
            }
        }
        i = i + 1;
    }
    false
}

/// Tells whether an attribute can be asked for: neither the path nor the name holds a zero byte.
pub fn can_look_up(path: &[u8], name: &str) -> (b: bool)
    ensures
        b == (is_c_string(path@) && is_c_string(encode_utf8(name@))),
{
    nul_position(path).is_none() && nul_position(name.as_bytes()).is_none()
}

/// The buffer to read an attribute into, from what the kernel said of its size.
///
/// A negative size means that there is no attribute to read.
pub fn xattr_buffer(size: isize) -> (buf: Option<Vec<u8>>)
    ensures
        buf is Some == (size >= 0),
        buf matches Some(b) ==> b@ == Seq::new(size as nat, |i: int| 0u8),
{
    if size < 0 {
        None
    } else {
        let buf: Vec<u8> = vec![0u8; size as usize];
        assert(buf@ == Seq::new(size as nat, |i: int| 0u8));
        Some(buf)
    }
}

/// The outcome of reading an attribute into `buf`, from what the kernel returned.
pub fn xattr_get(returned: isize, buf: Vec<u8>) -> (lookup: XattrLookup)
    ensures
        lookup == (if returned < 0 {
            XattrLookup::Unset
        } else {
            XattrLookup::Value(buf)
        }),
{
    if returned < 0 {
        XattrLookup::Unset
    } else {
        XattrLookup::Value(buf)
    }
}

/// The line that a change is shown by.
pub open spec fn change_line(c: ChangeView) -> Seq<char> {
    match c.kind {
        ChangeKind::Added => "  "@ + "+"@ + " "@ + utf8_lossy(c.real_path) + " ["@ + "added"@ + "]"@,
        ChangeKind::Modified => "  "@ + "~"@ + " "@ + utf8_lossy(c.real_path) + " ["@ + "modified"@
            + "]"@,
        ChangeKind::Deleted => "  "@ + "-"@ + " "@ + utf8_lossy(c.real_path) + " ["@ + "deleted"@
            + "]"@,
    }
}

/// The lines that the changes are shown by.
pub open spec fn summary(changes: Seq<ChangeView>) -> Seq<Seq<char>> {
    if changes.len() == 0 {
        seq!["No filesystem changes detected."@]
    } else {
        seq!["\n─── Filesystem changes ──────────────────────────────────"@] + Seq::new(
            changes.len(),
            |i: int| change_line(changes[i]),
        ) + seq![
            "─────────────────────────────────────────────────────────"@,
            "  "@ + decimal(changes.len()) + " change(s) total"@,
        ]
    }
}

/// A human-readable summary of the detected changes, line by line.
pub fn display_changes(changes: &Vec<Change>) -> (lines: Vec<String>)
    ensures
        views(lines@) == summary(views(changes@)),
        forall|i: int| 0 <= i < changes@.len() ==> shown_as_is(#[trigger] changes@[i].real_path@),
{
    let mut lines: Vec<String> = Vec::new();
    if changes.len() == 0 {
        lines.push("No filesystem changes detected.".to_owned());
        assert(views(lines@) == summary(views(changes@)));
        return lines;
    }
    lines.push("\n─── Filesystem changes ──────────────────────────────────".to_owned());
    let ghost all = views(changes@);
    let ghost head = seq!["\n─── Filesystem changes ──────────────────────────────────"@];
    let mut i: usize = 0;
    assert(views(lines@) == head + Seq::new(0, |j: int| change_line(all[j])));
    while i < changes.len()
        invariant
            i <= changes@.len(),
            all == views(changes@),
            head.len() == 1,
            views(lines@) == head + Seq::new(i as nat, |j: int| change_line(all[j])),
            forall|j: int| 0 <= j < i ==> shown_as_is(#[trigger] changes@[j].real_path@),
        decreases changes@.len() - i,
    {
        let change = &changes[i];
        let (symbol, label) = match change.kind {
            ChangeKind::Added => ("+", "added"),
            ChangeKind::Modified => ("~", "modified"),
            ChangeKind::Deleted => ("-", "deleted"),
        };
        let mut line = "  ".to_owned();
        line.append(symbol);
        line.append(" ");
        line.append(display_path(change.real_path.as_slice()).as_str());
        line.append(" [");
        line.append(label);
        line.append("]");
        assert(line@ == change_line(all[i as int]));
        let ghost before = views(lines@);
        lines.push(line);
        assert(views(lines@) == before.push(line@));
        i = i + 1;
    }
    lines.push("─────────────────────────────────────────────────────────".to_owned());
    let mut total = "  ".to_owned();
    push_decimal(&mut total, changes.len() as u128);
    total.append(" change(s) total");
    lines.push(total);
    assert(views(lines@) == summary(all));
    lines
}

/// A file that the sandbox wrote at `name` below the upper directory is a change of `/name`.
pub proof fn lemma_real_path_of_upper(upper: Seq<u8>, name: Seq<u8>)
    requires
        is_plain(name),
        name.len() > 0,
        spans(name).len() > 0,
        spans(name).last().1 == name.len(),
    ensures
        real_path_of(upper, joined(upper, name)) == Some(seq![SLASH] + name),
{
    lemma_relative_joined(upper, name);
}

/// Every real path is absolute.
pub proof fn lemma_real_path_absolute(upper: Seq<u8>, path: Seq<u8>)
    ensures
        real_path_of(upper, path) matches Some(p) ==> p.len() > 0 && p[0] == SLASH,
{
}

/// The entry `e` records the change `c`.
pub open spec fn records(upper: Seq<u8>, e: EntryView, c: ChangeView) -> bool {
    &&& entry_kind(e) == Some(c.kind)
    &&& real_path_of(upper, e.path) == Some(c.real_path)
    &&& c.upper_path == e.path
}

/// A change is recorded exactly where some entry records it.
pub proof fn lemma_recorded_contains(upper: Seq<u8>, entries: Seq<EntryView>, c: ChangeView)
    ensures
        recorded(upper, entries).contains(c) == (exists|i: int|
            0 <= i < entries.len() && records(upper, #[trigger] entries[i], c)),
    decreases entries.len(),
{
    let all = recorded(upper, entries);
    if entries.len() > 0 {
        let front = entries.drop_last();
        let before = recorded(upper, front);
        let e = entries.last();
        lemma_recorded_contains(upper, front, c);
        if records(upper, e, c) {
            assert(all.last() == c);
            assert(entries[entries.len() - 1] == e);
        }
        if all.contains(c) {
            let k = choose|k: int| 0 <= k < all.len() && all[k] == c;
            if k < before.len() {
                assert(before[k] == c);
                assert(before.contains(c));
                let i = choose|i: int|
                    0 <= i < front.len() && records(upper, #[trigger] front[i], c);
                assert(entries[i] == front[i]);
            } else {
                assert(records(upper, entries[entries.len() - 1], c));
            }
        }
        if exists|i: int| 0 <= i < entries.len() && records(upper, #[trigger] entries[i], c) {
            let i = choose|i: int|
                0 <= i < entries.len() && records(upper, #[trigger] entries[i], c);
            if i < front.len() {
                assert(front[i] == entries[i]);
                let k = choose|k: int| 0 <= k < before.len() && before[k] == c;
                assert(all[k] == c);
            }
        }
    }
}

/// The real path `path` is among what the opaque directory `e` hides.
pub open spec fn is_hidden_by(path: Seq<u8>, e: EntryView) -> bool {
    hides(e) && stands_for(e.held, path)
}

proof fn lemma_hidden_stands_for(entries: Seq<EntryView>, path: Seq<u8>)
    ensures
        stands_for(hidden(entries), path) == (exists|i: int|
            0 <= i < entries.len() && is_hidden_by(path, #[trigger] entries[i])),
    decreases entries.len(),
{
    let all = hidden(entries);
    if entries.len() > 0 {
        let front = entries.drop_last();
        let before = hidden(front);
        let e = entries.last();
        lemma_hidden_stands_for(front, path);
        assert(e == entries[entries.len() - 1]);
        if stands_for(all, path) {
            let k = choose|k: int|
                0 <= k < all.len() && components(#[trigger] all[k]) == components(path);
            if k < before.len() {
                assert(components(before[k]) == components(path));
                assert(stands_for(before, path));
                let i = choose|i: int| 0 <= i < front.len() && is_hidden_by(path, #[trigger] front[i]);
                assert(entries[i] == front[i]);
            } else {
                assert(components(e.held[k - before.len()]) == components(path));
                assert(is_hidden_by(path, entries[entries.len() - 1]));
            }
        }
        if exists|i: int| 0 <= i < entries.len() && is_hidden_by(path, #[trigger] entries[i]) {
            let i = choose|i: int|
                0 <= i < entries.len() && is_hidden_by(path, #[trigger] entries[i]);
            if i < front.len() {
                assert(front[i] == entries[i]);
                let k = choose|k: int|
                    0 <= k < before.len() && components(#[trigger] before[k]) == components(path);
                assert(components(all[k]) == components(path));
            } else {
                let k = choose|k: int|
                    0 <= k < e.held.len() && components(#[trigger] e.held[k]) == components(path);
                assert(components(all[before.len() + k]) == components(path));
            }
        }
    } else {
        assert(!stands_for(all, path));
    }
}

/// What an opaque directory hides is collected as deleted, where no entry stands in its place.
pub proof fn lemma_hidden_is_deleted(upper: Seq<u8>, entries: Seq<EntryView>, path: Seq<u8>)
    requires
        exists|i: int| 0 <= i < entries.len() && is_hidden_by(path, #[trigger] entries[i]),
        !stands_for(real_paths(upper, entries), path),
    ensures
        exists|k: int|
            0 <= k < collected(upper, entries).len() && components(
                (#[trigger] collected(upper, entries)[k]).real_path,
            ) == components(path) && collected(upper, entries)[k].kind == ChangeKind::Deleted,
{
    let all = hidden(entries);
    let set = sorted_set(all);
    let there = real_paths(upper, entries);
    let gone = |p: Seq<u8>| !stands_for(there, p);
    lemma_hidden_stands_for(entries, path);
    lemma_sorted_set(all);
    let k = choose|k: int| 0 <= k < all.len() && components(#[trigger] all[k]) == components(path);
    assert(stands_for(set, all[k]));
    let i = choose|i: int| 0 <= i < set.len() && components(#[trigger] set[i]) == components(all[k]);
    assert(!stands_for(there, set[i]));
    set.lemma_filter_contains(gone, i);
    let paths = vanished(upper, entries);
    let j = choose|j: int| 0 <= j < paths.len() && paths[j] == set[i];
    let c = deletion(upper, paths[j]);
    let changes = recorded(upper, entries) + deletions(upper, paths);
    assert(changes[recorded(upper, entries).len() + j] == c);
    assert(changes.contains(c));
    lemma_stable_sorted::<ByRealPath>(changes);
    lemma_stable_sort_contains::<ByRealPath>(changes, collected(upper, entries), c);
    let n = choose|n: int| 0 <= n < collected(upper, entries).len() && collected(upper, entries)[n] == c;
    assert(components(collected(upper, entries)[n].real_path) == components(path));
}

/// What is collected is every change that an entry records, the deletion of every hidden path in
/// whose place no entry stands, and nothing else, in ascending order of the real paths.
pub proof fn lemma_collected(upper: Seq<u8>, entries: Seq<EntryView>, c: ChangeView)
    ensures
        sorted::<ByRealPath>(collected(upper, entries)),
        collected(upper, entries).contains(c) == ((exists|i: int|
            0 <= i < entries.len() && records(upper, #[trigger] entries[i], c)) || (
        vanished(upper, entries).contains(c.real_path) && c == deletion(upper, c.real_path))),
{
    let first = recorded(upper, entries);
    let paths = vanished(upper, entries);
    let rest = deletions(upper, paths);
    let all = first + rest;
    lemma_stable_sorted::<ByRealPath>(all);
    lemma_stable_sort_contains::<ByRealPath>(all, collected(upper, entries), c);
    lemma_recorded_contains(upper, entries, c);
    if all.contains(c) {
        let k = choose|k: int| 0 <= k < all.len() && all[k] == c;
        if k < first.len() {
            assert(first[k] == c);
        } else {
            assert(rest[k - first.len()] == c);
            assert(paths[k - first.len()] == c.real_path);
        }
    }
    if first.contains(c) {
        let k = choose|k: int| 0 <= k < first.len() && first[k] == c;
        assert(all[k] == c);
    }
    if paths.contains(c.real_path) && c == deletion(upper, c.real_path) {
        let k = choose|k: int| 0 <= k < paths.len() && paths[k] == c.real_path;
        assert(rest[k] == c);
        assert(all[first.len() + k] == c);
    }
}

/// A path is deleted for being hidden only where some opaque directory hides it and no entry
/// stands in its place.
pub proof fn lemma_vanished(upper: Seq<u8>, entries: Seq<EntryView>, path: Seq<u8>)
    requires
        vanished(upper, entries).contains(path),
    ensures
        exists|i: int| 0 <= i < entries.len() && is_hidden_by(path, #[trigger] entries[i]),
        !stands_for(real_paths(upper, entries), path),
{
    let all = hidden(entries);
    let set = sorted_set(all);
    let gone = |p: Seq<u8>| !stands_for(real_paths(upper, entries), p);
    set.lemma_filter_contains_rev(gone, path);
    let j = choose|j: int| 0 <= j < set.filter(gone).len() && set.filter(gone)[j] == path;
    set.lemma_filter_pred(gone, j);
    lemma_sorted_set_members(all, path);
    let k = choose|k: int| 0 <= k < all.len() && all[k] == path;
    assert(components(all[k]) == components(path));
    lemma_hidden_stands_for(entries, path);
}

} // verus!
