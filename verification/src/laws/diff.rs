//! What the changes that are read off an upper directory say of it.

use crate::diff::{
    all_below, can_look_up, change_line, classify, collect_changes, collected, deletion,
    entry_kind, hidden, is_hidden_by, lemma_collected, lemma_hidden_is_deleted, lemma_vanished,
    real_path, real_path_of, real_paths, recorded, records, says_opaque, stored_on, summary,
    xattr_buffer, xattr_get, Change, ChangeKind, ChangeView, EntryView, PrefixNotFound, RealEntry,
    RealView, UpperEntry, XattrLookup,
};
use crate::laws::path::lemma_components_of_names;
use crate::order::views;
use crate::path::{
    components, is_below, lemma_joined_components, lemma_relative_components, path_leq, relative,
    SLASH,
};
use crate::path_set::stands_for;
use crate::text::{decimal, utf8_lossy};
use vstd::prelude::*;
use vstd::utf8::encode_utf8;

verus! {

/// `c` concerns the place that the path `path` below `upper` stands for: the root, and then what
/// the path has behind the upper directory.
pub open spec fn concerns_entry(upper: Seq<u8>, path: Seq<u8>, c: ChangeView) -> bool {
    &&& c.upper_path == path
    &&& components(c.real_path) == seq![seq![SLASH]] + components(path).skip(
        components(upper).len() as int,
    )
}

/// The change of kind `kind` at the place of `path` is among `changes`.
pub open spec fn is_reported(
    upper: Seq<u8>,
    changes: Seq<ChangeView>,
    path: Seq<u8>,
    kind: ChangeKind,
) -> bool {
    exists|k: int|
        0 <= k < changes.len() && (#[trigger] changes[k]).kind == kind && concerns_entry(
            upper,
            path,
            changes[k],
        )
}

proof fn lemma_place_of(upper: Seq<u8>, path: Seq<u8>)
    requires
        components(upper).len() > 0,
        is_below(path, upper),
    ensures
        real_path_of(upper, path) matches Some(p) && components(p) == seq![seq![SLASH]]
            + components(path).skip(components(upper).len() as int),
{
    let rel = relative(path, upper)->Some_0;
    lemma_relative_components(path, upper);
    lemma_joined_components(seq![SLASH], rel);
    lemma_components_of_names(Seq::empty());
}

proof fn lemma_reported(upper: Seq<u8>, entries: Seq<EntryView>, i: int, kind: ChangeKind)
    requires
        components(upper).len() > 0,
        0 <= i < entries.len(),
        is_below(entries[i].path, upper),
        entry_kind(entries[i]) == Some(kind),
    ensures
        is_reported(upper, collected(upper, entries), entries[i].path, kind),
{
    let e = entries[i];
    lemma_place_of(upper, e.path);
    let c = ChangeView { real_path: real_path_of(upper, e.path)->Some_0, upper_path: e.path, kind };
    assert(records(upper, entries[i], c));
    lemma_collected(upper, entries, c);
    let all = collected(upper, entries);
    let k = choose|k: int| 0 <= k < all.len() && all[k] == c;
    assert(concerns_entry(upper, e.path, all[k]));
}

/// A character device with number 0 is reported as a deletion at its place, whatever stands there
/// on the real filesystem: a file, a directory, a link, or nothing.
pub proof fn lemma_whiteout_is_a_deletion(upper: Seq<u8>, entries: Seq<EntryView>, i: int)
    requires
        components(upper).len() > 0,
        0 <= i < entries.len(),
        is_below(entries[i].path, upper),
        entries[i].char_device,
        entries[i].rdev == 0,
    ensures
        is_reported(upper, collected(upper, entries), entries[i].path, ChangeKind::Deleted),
{
    lemma_reported(upper, entries, i, ChangeKind::Deleted);
}

/// Whatever else is no directory was written: it is reported as modified where something stood in
/// its place, were it a link that leads nowhere, and as added elsewhere.
pub proof fn lemma_file_is_reported(upper: Seq<u8>, entries: Seq<EntryView>, i: int)
    requires
        components(upper).len() > 0,
        0 <= i < entries.len(),
        is_below(entries[i].path, upper),
        !entries[i].char_device || entries[i].rdev != 0,
        !entries[i].dir,
    ensures
        !entries[i].real_exists && !entries[i].real_link ==> is_reported(
            upper,
            collected(upper, entries),
            entries[i].path,
            ChangeKind::Added,
        ),
        entries[i].real_exists ==> is_reported(
            upper,
            collected(upper, entries),
            entries[i].path,
            ChangeKind::Modified,
        ),
        entries[i].real_link ==> is_reported(
            upper,
            collected(upper, entries),
            entries[i].path,
            ChangeKind::Modified,
        ),
{
    if entries[i].real_exists || entries[i].real_link {
        lemma_reported(upper, entries, i, ChangeKind::Modified);
    } else {
        lemma_reported(upper, entries, i, ChangeKind::Added);
    }
}

/// A new directory is reported where no directory stood in its place.
pub proof fn lemma_new_directory_is_reported(upper: Seq<u8>, entries: Seq<EntryView>, i: int)
    requires
        components(upper).len() > 0,
        0 <= i < entries.len(),
        is_below(entries[i].path, upper),
        !entries[i].char_device || entries[i].rdev != 0,
        entries[i].dir,
        entries[i].opaque,
        !entries[i].real_dir,
    ensures
        !entries[i].real_exists && !entries[i].real_link ==> is_reported(
            upper,
            collected(upper, entries),
            entries[i].path,
            ChangeKind::Added,
        ),
        entries[i].real_exists || entries[i].real_link ==> is_reported(
            upper,
            collected(upper, entries),
            entries[i].path,
            ChangeKind::Modified,
        ),
{
    if entries[i].real_exists || entries[i].real_link {
        lemma_reported(upper, entries, i, ChangeKind::Modified);
    } else {
        lemma_reported(upper, entries, i, ChangeKind::Added);
    }
}

/// What the entry `e` by itself gives reason to report.
pub open spec fn gives_reason(e: EntryView, kind: ChangeKind) -> bool {
    match kind {
        ChangeKind::Deleted => e.char_device && e.rdev == 0,
        ChangeKind::Added => !(e.char_device && e.rdev == 0) && !e.real_exists && !e.real_link && (
        e.dir ==> e.opaque && !e.real_dir),
        ChangeKind::Modified => !(e.char_device && e.rdev == 0) && (e.real_exists || e.real_link) && (
        e.dir ==> e.opaque && !e.real_dir),
    }
}

/// A real path that is gone unsaid: an opaque directory in the place of a real one hides it.
pub open spec fn is_covered(e: EntryView, path: Seq<u8>) -> bool {
    e.dir && e.opaque && e.real_dir && !(e.char_device && e.rdev == 0) && exists|j: int|
        0 <= j < e.held.len() && components(#[trigger] e.held[j]) == components(path)
}

/// No entry has the place of the real path `path`.
pub open spec fn is_missing(upper: Seq<u8>, entries: Seq<EntryView>, path: Seq<u8>) -> bool {
    forall|i: int|
        0 <= i < entries.len() ==> seq![seq![SLASH]] + components((#[trigger] entries[i]).path).skip(
            components(upper).len() as int,
        ) != components(path)
}

proof fn lemma_missing(upper: Seq<u8>, entries: Seq<EntryView>, path: Seq<u8>)
    requires
        components(upper).len() > 0,
        all_below(upper, entries),
    ensures
        is_missing(upper, entries, path) == !stands_for(real_paths(upper, entries), path),
{
    let there = real_paths(upper, entries);
    let n = components(upper).len() as int;
    assert forall|i: int| 0 <= i < entries.len() implies components(#[trigger] there[i]) == seq![
        seq![SLASH],
    ] + components(entries[i].path).skip(n) by {
        assert(is_below(entries[i].path, upper));
        lemma_place_of(upper, entries[i].path);
    }
    if is_missing(upper, entries, path) {
        assert forall|i: int| 0 <= i < there.len() implies components(#[trigger] there[i])
            != components(path) by {
            assert(seq![seq![SLASH]] + components((entries[i]).path).skip(n) != components(path));
        }
    }
    if !stands_for(there, path) {
        assert forall|i: int| 0 <= i < entries.len() implies seq![seq![SLASH]] + components(
            (#[trigger] entries[i]).path,
        ).skip(n) != components(path) by {
            assert(components(there[i]) != components(path));
        }
    }
}

/// What an opaque directory hides of a real one is reported as deleted, unless an entry stands in
/// its place.
pub proof fn lemma_hidden_path_is_deleted(
    upper: Seq<u8>,
    entries: Seq<EntryView>,
    i: int,
    path: Seq<u8>,
)
    requires
        components(upper).len() > 0,
        all_below(upper, entries),
        0 <= i < entries.len(),
        is_covered(entries[i], path),
        is_missing(upper, entries, path),
    ensures
        exists|k: int|
            0 <= k < collected(upper, entries).len() && components(
                (#[trigger] collected(upper, entries)[k]).real_path,
            ) == components(path) && collected(upper, entries)[k].kind == ChangeKind::Deleted,
{
    lemma_missing(upper, entries, path);
    assert(is_hidden_by(path, entries[i]));
    lemma_hidden_is_deleted(upper, entries, path);
}

/// Nothing is reported without a reason: an entry that gives it, or a hidden path that no entry
/// stands for. And the report is in ascending order of the paths.
pub proof fn lemma_reports_have_reasons(upper: Seq<u8>, entries: Seq<EntryView>, k: int)
    requires
        components(upper).len() > 0,
        all_below(upper, entries),
        0 <= k < collected(upper, entries).len(),
    ensures
        (exists|i: int|
            0 <= i < entries.len() && gives_reason(
                #[trigger] entries[i],
                collected(upper, entries)[k].kind,
            ) && concerns_entry(upper, entries[i].path, collected(upper, entries)[k])) || (
        collected(upper, entries)[k].kind == ChangeKind::Deleted && is_missing(
            upper,
            entries,
            collected(upper, entries)[k].real_path,
        ) && exists|i: int|
            0 <= i < entries.len() && is_covered(
                #[trigger] entries[i],
                collected(upper, entries)[k].real_path,
            )),
        is_missing(upper, entries, collected(upper, entries)[k].real_path) && components(
            collected(upper, entries)[k].real_path,
        ).len() > 0 && components(collected(upper, entries)[k].real_path)[0] == seq![SLASH]
            ==> components(collected(upper, entries)[k].upper_path) == components(upper)
            + components(collected(upper, entries)[k].real_path).skip(1),
        forall|l: int|
            k <= l < collected(upper, entries).len() ==> path_leq(
                collected(upper, entries)[k].real_path,
                (#[trigger] collected(upper, entries)[l]).real_path,
            ),
{
    let all = collected(upper, entries);
    let c = all[k];
    assert(all.contains(c));
    lemma_collected(upper, entries, c);
    if exists|i: int| 0 <= i < entries.len() && records(upper, #[trigger] entries[i], c) {
        let i = choose|i: int| 0 <= i < entries.len() && records(upper, #[trigger] entries[i], c);
        assert(is_below(entries[i].path, upper));
        lemma_place_of(upper, entries[i].path);
        assert(gives_reason(entries[i], c.kind) && concerns_entry(upper, entries[i].path, c));
        assert(!is_missing(upper, entries, c.real_path));
    } else {
        lemma_vanished(upper, entries, c.real_path);
        lemma_missing(upper, entries, c.real_path);
        if components(c.real_path).len() > 0 && components(c.real_path)[0] == seq![SLASH] {
            lemma_place_of_deletion(upper, c.real_path);
        }
        let i = choose|i: int|
            0 <= i < entries.len() && is_hidden_by(c.real_path, #[trigger] entries[i]);
        assert(is_covered(entries[i], c.real_path));
    }
}

/// Each entry counts by itself: the changes of two listings, one behind the other, are those of
/// the first and then those of the second, and so is what they hide.
pub proof fn lemma_entry_by_entry(upper: Seq<u8>, a: Seq<EntryView>, b: Seq<EntryView>)
    ensures
        recorded(upper, a + b) == recorded(upper, a) + recorded(upper, b),
        hidden(a + b) == hidden(a) + hidden(b),
        recorded(upper, a).len() <= a.len(),
    decreases a.len() + b.len(),
{
    if b.len() == 0 {
        assert(a + b == a);
        if a.len() > 0 {
            lemma_entry_by_entry(upper, a.drop_last(), b);
        }
    } else {
        assert((a + b).drop_last() == a + b.drop_last());
        assert((a + b).last() == b.last());
        lemma_entry_by_entry(upper, a, b.drop_last());
    }
}

/// A listing is refused exactly where the components of the upper directory do not start those of
/// some entry.
pub proof fn lemma_refused_listing(upper: Seq<u8>, entries: Seq<EntryView>)
    ensures
        all_below(upper, entries) == forall|i: int|
            0 <= i < entries.len() ==> components(upper).is_prefix_of(
                components(#[trigger] entries[i].path),
            ),
{
    if all_below(upper, entries) {
        assert forall|i: int| 0 <= i < entries.len() implies components(upper).is_prefix_of(
            components(#[trigger] entries[i].path),
        ) by {
            assert(is_below(entries[i].path, upper));
        }
    }
}

/// A deletion that no entry records is placed below the upper directory as it lies below the root.
pub proof fn lemma_place_of_deletion(upper: Seq<u8>, path: Seq<u8>)
    requires
        components(upper).len() > 0,
        components(path).len() > 0,
        components(path)[0] == seq![SLASH],
    ensures
        deletion(upper, path).real_path == path,
        deletion(upper, path).kind == ChangeKind::Deleted,
        components(deletion(upper, path).upper_path) == components(upper) + components(path).skip(1),
{
    lemma_components_of_names(Seq::empty());
    let root = seq![SLASH];
    assert(components(root).is_prefix_of(components(path))) by {
        assert(components(path).take(1) =~= seq![seq![SLASH]]);
    }
    lemma_relative_components(path, root);
    lemma_joined_components(upper, relative(path, root)->Some_0);
}

/// A directory is opaque where one of the lookups found the single byte `y`. All else is read as
/// it was found.
pub proof fn lemma_what_an_entry_shows(e: UpperEntry)
    ensures
        e@.opaque == exists|i: int|
            0 <= i < e.lookups@.len() && (#[trigger] e.lookups@[i] matches XattrLookup::Value(v)
                && v@.len() == 1 && v@[0] == 121),
        e@.path == e.path@,
        e@.char_device == e.char_device,
        e@.rdev == e.rdev,
        e@.dir == e.dir,
        e@.real_exists == e.real_exists,
        e@.real_link == e.real_link,
        e@.real_dir == e.real_dir,
        e@.held.len() == e.held@.len(),
        forall|i: int| 0 <= i < e.held@.len() ==> #[trigger] e@.held[i] == e.held@[i]@,
{
    if e@.opaque {
        let i = choose|i: int|
            0 <= i < e.lookups@.len() && says_opaque(#[trigger] e.lookups@[i]);
        assert(e.lookups@[i] matches XattrLookup::Value(v) && v@.len() == 1 && v@[0] == 121);
    }
    assert forall|i: int|
        0 <= i < e.lookups@.len() && (#[trigger] e.lookups@[i] matches XattrLookup::Value(v)
            && v@.len() == 1 && v@[0] == 121) implies e@.opaque by {
        if let XattrLookup::Value(v) = e.lookups@[i] {
            assert(v@ == seq![121u8]);
        }
        assert(says_opaque(e.lookups@[i]));
    }
}

/// A change and a file of the real filesystem are seen as they are.
pub proof fn lemma_what_a_change_shows(c: Change, r: RealEntry)
    ensures
        c@.real_path == c.real_path@,
        c@.upper_path == c.upper_path@,
        c@.kind == c.kind,
        r@.path == r.path@,
        r@.dev == r.dev,
{
}

/// A path belongs to the lower layer exactly where it is stored on the device of the root, each
/// counting by itself and in the order in which they were found.
pub proof fn lemma_lower_layer(dev: u64, a: Seq<RealView>, b: Seq<RealView>, r: RealView)
    ensures
        stored_on(dev, Seq::empty()) == Seq::<Seq<u8>>::empty(),
        stored_on(dev, a + b) == stored_on(dev, a) + stored_on(dev, b),
        r.dev == dev ==> stored_on(dev, a.push(r)) == stored_on(dev, a).push(r.path),
        r.dev != dev ==> stored_on(dev, a.push(r)) == stored_on(dev, a),
    decreases b.len(),
{
    assert(a.push(r).drop_last() == a);
    if b.len() == 0 {
        assert(a + b == a);
    } else {
        assert((a + b).drop_last() == a + b.drop_last());
        assert((a + b).last() == b.last());
        lemma_lower_layer(dev, a, b.drop_last(), r);
    }
}

/// The summary has one line for each change, in their order, between a heading, a rule and the
/// total. Where nothing changed it says so.
pub proof fn lemma_summary(changes: Seq<ChangeView>, i: int)
    requires
        0 <= i < changes.len(),
    ensures
        summary(Seq::empty()) == seq!["No filesystem changes detected."@],
        summary(changes).len() == changes.len() + 3,
        summary(changes)[0]
            == "\n─── Filesystem changes ──────────────────────────────────"@,
        changes[i].kind == ChangeKind::Added ==> summary(changes)[i + 1] == "  + "@ + utf8_lossy(
            changes[i].real_path,
        ) + " [added]"@,
        changes[i].kind == ChangeKind::Modified ==> summary(changes)[i + 1] == "  ~ "@ + utf8_lossy(
            changes[i].real_path,
        ) + " [modified]"@,
        changes[i].kind == ChangeKind::Deleted ==> summary(changes)[i + 1] == "  - "@ + utf8_lossy(
            changes[i].real_path,
        ) + " [deleted]"@,
        summary(changes)[changes.len() as int + 1]
            == "─────────────────────────────────────────────────────────"@,
        summary(changes)[changes.len() as int + 2] == "  "@ + decimal(changes.len())
            + " change(s) total"@,
{
    reveal_strlit("  ");
    reveal_strlit(" ");
    reveal_strlit("+");
    reveal_strlit("~");
    reveal_strlit("-");
    reveal_strlit("  + ");
    reveal_strlit("  ~ ");
    reveal_strlit("  - ");
    reveal_strlit(" [");
    reveal_strlit("]");
    reveal_strlit("added");
    reveal_strlit("modified");
    reveal_strlit("deleted");
    reveal_strlit(" [added]");
    reveal_strlit(" [modified]");
    reveal_strlit(" [deleted]");
    let c = changes[i];
    let p = utf8_lossy(c.real_path);
    assert(summary(changes)[i + 1] == change_line(c));
    if c.kind == ChangeKind::Added {
        assert(change_line(c) =~= "  + "@ + p + " [added]"@);
    } else if c.kind == ChangeKind::Modified {
        assert(change_line(c) =~= "  ~ "@ + p + " [modified]"@);
    } else {
        assert(change_line(c) =~= "  - "@ + p + " [deleted]"@);
    }
}

/// Whatever the entries are, collecting them succeeds exactly where all lie below the upper
/// directory, and then reports each whiteout as a deletion and each file as written.
pub proof fn lemma_collecting(
    upper: &[u8],
    entries: &Vec<UpperEntry>,
    out: Result<Vec<Change>, PrefixNotFound>,
    i: int,
)
    requires
        call_ensures(collect_changes, (upper, entries), out),
        components(upper@).len() > 0,
        0 <= i < entries@.len(),
    ensures
        out is Ok == forall|j: int|
            0 <= j < entries@.len() ==> components(upper@).is_prefix_of(
                components((#[trigger] entries@[j]).path@),
            ),
        out matches Ok(changes) ==> {
            let e = entries@[i];
            &&& e.char_device && e.rdev == 0 ==> is_reported(
                upper@,
                views(changes@),
                e.path@,
                ChangeKind::Deleted,
            )
            &&& !e.char_device && !e.dir && !e.real_exists && !e.real_link ==> is_reported(
                upper@,
                views(changes@),
                e.path@,
                ChangeKind::Added,
            )
            &&& !e.char_device && !e.dir && (e.real_exists || e.real_link) ==> is_reported(
                upper@,
                views(changes@),
                e.path@,
                ChangeKind::Modified,
            )
        },
{
    let all = views(entries@);
    lemma_refused_listing(upper@, all);
    assert(all[i] == entries@[i]@);
    assert forall|j: int| 0 <= j < entries@.len() && out is Ok implies components(
        upper@,
    ).is_prefix_of(components((#[trigger] entries@[j]).path@)) by {
        assert(all[j].path == entries@[j].path@);
    }
    if forall|j: int|
        0 <= j < entries@.len() ==> components(upper@).is_prefix_of(
            components((#[trigger] entries@[j]).path@),
        ) {
        assert forall|j: int| 0 <= j < all.len() implies components(upper@).is_prefix_of(
            components(#[trigger] all[j].path),
        ) by {
            assert(all[j].path == entries@[j].path@);
        }
    }
    if out is Ok {
        assert(is_below(all[i].path, upper@));
        if all[i].char_device && all[i].rdev == 0 {
            lemma_whiteout_is_a_deletion(upper@, all, i);
        } else if !all[i].dir {
            lemma_file_is_reported(upper@, all, i);
        }
    }
}

/// What a single entry says, by itself.
pub proof fn lemma_classifying(e: &UpperEntry, kind: Option<ChangeKind>)
    requires
        call_ensures(classify, (e,), kind),
    ensures
        kind == Some(ChangeKind::Deleted) <==> e.char_device && e.rdev == 0,
        kind is None <==> (!e.char_device || e.rdev != 0) && e.dir && (e.real_dir || !e@.opaque),
        kind == Some(ChangeKind::Modified) ==> e.real_exists || e.real_link,
        kind == Some(ChangeKind::Added) ==> !e.real_exists && !e.real_link,
{
}

/// An attribute can be asked for where no zero byte is in the way. It is read into as many zeros
/// as the kernel says, and counts unless the kernel refuses it.
pub proof fn lemma_attributes(
    path: &[u8],
    name: &str,
    asked: bool,
    size: isize,
    room: Option<Vec<u8>>,
    returned: isize,
    buf: Vec<u8>,
    lookup: XattrLookup,
)
    requires
        call_ensures(can_look_up, (path, name), asked),
        call_ensures(xattr_buffer, (size,), room),
        call_ensures(xattr_get, (returned, buf), lookup),
    ensures
        asked == (!path@.contains(0u8) && !encode_utf8(name@).contains(0u8)),
        size < 0 ==> room is None,
        size >= 0 ==> (room matches Some(b) && b@.len() == size && forall|i: int|
            0 <= i < size ==> #[trigger] b@[i] == 0),
        returned < 0 ==> lookup == XattrLookup::Unset,
        returned >= 0 ==> lookup == XattrLookup::Value(buf),
{
}

/// A path below the upper directory stands for the same path seen from the root.
pub proof fn lemma_standing_for(
    upper: &[u8],
    path: &[u8],
    out: Result<Vec<u8>, PrefixNotFound>,
)
    requires
        call_ensures(real_path, (upper, path), out),
        components(upper@).len() > 0,
    ensures
        out is Ok == components(upper@).is_prefix_of(components(path@)),
        out matches Ok(p) ==> components(p@) == seq![seq![SLASH]] + components(path@).skip(
            components(upper@).len() as int,
        ),
{
    if is_below(path@, upper@) {
        lemma_place_of(upper@, path@);
    }
}

} // verus!
