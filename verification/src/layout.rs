//! The changes that are collected from an upper directory concern places of their own.

use crate::apply::{reached, started, ApplyEventView, ApplyPhase};
use crate::diff::{
    all_below, collected, deletions, hidden, is_hidden_by, lemma_collected,
    lemma_recorded_contains, lemma_vanished, real_path_of, real_paths, recorded, records, vanished,
    whiteout, ByRealPath, ChangeKind, ChangeView, EntryView,
};
use crate::files::{
    all_settled, apart, happens, is_over, is_tree, laid_out, lemma_applied_is_settled,
    lemma_apply_twice, place, world, Files, Upper,
};
use crate::order::{distinct, lemma_stable_sort_distinct, lemma_stable_sorted, Order};
use crate::path::{
    components, is_below, lemma_joined_components, lemma_path_order,
    lemma_relative_components, relative, spans, SLASH,
};
use crate::path_set::{lemma_sorted_set, sorted_set, stands_for};
use vstd::prelude::*;

verus! {

/// The entry is a directory, and no whiteout.
pub open spec fn is_real_dir(e: EntryView) -> bool {
    e.dir && !whiteout(e)
}

/// `e` lies at or below the place of `d`.
pub open spec fn lies_below(e: EntryView, d: EntryView) -> bool {
    components(d.path).is_prefix_of(components(e.path))
}

/// Some entry has the components `k`.
pub open spec fn is_listed(entries: Seq<EntryView>, k: Seq<Seq<u8>>) -> bool {
    exists|j: int| 0 <= j < entries.len() && components(#[trigger] entries[j].path) == k
}

/// The entries list a directory tree below `upper`: none twice, none below what is no directory,
/// and with each the directories on the way to it.
pub open spec fn is_listing(upper: Seq<u8>, entries: Seq<EntryView>) -> bool {
    &&& components(upper).len() > 0
    &&& all_below(upper, entries)
    &&& forall|i: int, j: int|
        0 <= i < entries.len() && 0 <= j < entries.len() && i != j ==> components(
            (#[trigger] entries[i]).path,
        ) != components((#[trigger] entries[j]).path) && (lies_below(entries[j], entries[i])
            ==> is_real_dir(entries[i]))
    &&& forall|i: int, n: int|
        0 <= i < entries.len() && components(upper).len() < n < components(
            entries[i].path,
        ).len() ==> is_listed(entries, #[trigger] components(entries[i].path).take(n))
}

/// The real path that an entry stands for, by its components.
pub open spec fn entry_place(upper: Seq<u8>, e: EntryView) -> Seq<Seq<u8>> {
    components(real_path_of(upper, e.path)->Some_0)
}

/// What an opaque directory hides lies below the root.
pub open spec fn hidden_in_place(entries: Seq<EntryView>) -> bool {
    forall|path: Seq<u8>, i: int|
        0 <= i < entries.len() && #[trigger] is_hidden_by(path, entries[i]) ==> components(
            path,
        ).len() > 1
}

/// `files` are the files that the entries list.
pub open spec fn shows(files: Upper, entries: Seq<EntryView>) -> bool {
    forall|i: int|
        0 <= i < entries.len() && is_real_dir(#[trigger] entries[i])
            ==> files[entries[i].path] is Dir
}

proof fn lemma_root()
    ensures
        components(seq![SLASH]) == seq![seq![SLASH]],
{
    let p = seq![SLASH];
    assert(spans(p) == seq![(0int, 1int)]);
    assert(p.subrange(0, 1) == p);
    assert(components(p) == seq![seq![SLASH]]);
}

/// The place of an entry: the root, and what its path has behind that of the upper directory.
proof fn lemma_entry_place(upper: Seq<u8>, e: EntryView)
    requires
        components(upper).len() > 0,
        is_below(e.path, upper),
    ensures
        real_path_of(upper, e.path) is Some,
        entry_place(upper, e) == seq![seq![SLASH]] + components(e.path).skip(
            components(upper).len() as int,
        ),
{
    let rel = relative(e.path, upper)->Some_0;
    lemma_relative_components(e.path, upper);
    lemma_joined_components(seq![SLASH], rel);
    lemma_root();
}

/// Places lie below one another as the entries do.
proof fn lemma_places(upper: Seq<u8>, d: EntryView, e: EntryView)
    requires
        components(upper).len() > 0,
        is_below(d.path, upper),
        is_below(e.path, upper),
    ensures
        entry_place(upper, d).is_prefix_of(entry_place(upper, e)) == lies_below(e, d),
        (entry_place(upper, d) == entry_place(upper, e)) == (components(d.path) == components(
            e.path,
        )),
{
    let n = components(upper).len() as int;
    let x = components(d.path);
    let y = components(e.path);
    let root = seq![seq![SLASH]];
    lemma_entry_place(upper, d);
    lemma_entry_place(upper, e);
    let px = entry_place(upper, d);
    let py = entry_place(upper, e);
    assert(x == components(upper) + x.skip(n)) by {
        assert(x.take(n) == components(upper));
    }
    assert(y == components(upper) + y.skip(n)) by {
        assert(y.take(n) == components(upper));
    }
    if x.is_prefix_of(y) {
        assert(x == y.take(x.len() as int));
        assert(px =~= py.take(px.len() as int)) by {
            assert forall|k: int| 0 <= k < px.len() implies px[k] == py[k] by {
                if k > 0 {
                    assert(px[k] == x[k - 1 + n]);
                    assert(py[k] == y[k - 1 + n]);
                    assert(y.take(x.len() as int)[k - 1 + n] == y[k - 1 + n]);
                }
            }
        }
    }
    if px.is_prefix_of(py) {
        assert(px == py.take(px.len() as int));
        assert(x =~= y.take(x.len() as int)) by {
            assert forall|k: int| 0 <= k < x.len() implies x[k] == y[k] by {
                if k >= n {
                    assert(px[k - n + 1] == x[k]);
                    assert(py[k - n + 1] == y[k]);
                    assert(py.take(px.len() as int)[k - n + 1] == py[k - n + 1]);
                } else {
                    assert(x[k] == x.take(n)[k]);
                    assert(y[k] == y.take(n)[k]);
                }
            }
        }
    }
    if px == py {
        assert(x.skip(n) == px.skip(1));
        assert(y.skip(n) == py.skip(1));
    }
}

/// A place on the way to an entry, other than the root, is that of an entry itself.
proof fn lemma_on_the_way_is_listed(upper: Seq<u8>, entries: Seq<EntryView>, j: int, path: Seq<u8>)
    requires
        is_listing(upper, entries),
        0 <= j < entries.len(),
        components(path).len() > 1,
        components(path).is_prefix_of(entry_place(upper, entries[j])),
    ensures
        stands_for(real_paths(upper, entries), path),
{
    let n = components(upper).len() as int;
    let y = components(entries[j].path);
    let k = components(path);
    lemma_entry_place(upper, entries[j]);
    let py = entry_place(upper, entries[j]);
    assert(k == py.take(k.len() as int));
    let m = n + k.len() - 1;
    let there = real_paths(upper, entries);
    if m == y.len() {
        assert(py.take(k.len() as int) == py);
        assert(there[j] == real_path_of(upper, entries[j].path)->Some_0);
        assert(components(there[j]) == k);
    } else {
        assert(is_listed(entries, y.take(m)));
        let i = choose|i: int| 0 <= i < entries.len() && components(#[trigger] entries[i].path) == y.take(m);
        lemma_entry_place(upper, entries[i]);
        assert(y.take(m).skip(n) == y.skip(n).take(k.len() - 1));
        assert(entry_place(upper, entries[i]) == k) by {
            assert(seq![seq![SLASH]] + y.skip(n).take(k.len() - 1) == py.take(k.len() as int));
        }
        assert(there[i] == real_path_of(upper, entries[i].path)->Some_0);
        assert(components(there[i]) == k);
    }
}

/// No two of the recorded changes have one place.
proof fn lemma_recorded_distinct(upper: Seq<u8>, entries: Seq<EntryView>)
    requires
        components(upper).len() > 0,
        all_below(upper, entries),
        forall|i: int, j: int|
            0 <= i < entries.len() && 0 <= j < entries.len() && i != j ==> components(
                (#[trigger] entries[i]).path,
            ) != components((#[trigger] entries[j]).path),
    ensures
        forall|a: int, b: int|
            0 <= a < b < recorded(upper, entries).len() ==> place(
                #[trigger] recorded(upper, entries)[a],
            ) != place(#[trigger] recorded(upper, entries)[b]),
    decreases entries.len(),
{
    if entries.len() > 0 {
        let front = entries.drop_last();
        let before = recorded(upper, front);
        let all = recorded(upper, entries);
        let e = entries.last();
        assert forall|i: int| 0 <= i < front.len() implies is_below(
            #[trigger] front[i].path,
            upper,
        ) by {
            assert(front[i] == entries[i]);
        }
        assert forall|i: int, j: int|
            0 <= i < front.len() && 0 <= j < front.len() && i != j implies components(
            (#[trigger] front[i]).path,
        ) != components((#[trigger] front[j]).path) by {
            assert(front[i] == entries[i] && front[j] == entries[j]);
        }
        lemma_recorded_distinct(upper, front);
        assert forall|a: int, b: int| 0 <= a < b < all.len() implies place(#[trigger] all[a])
            != place(#[trigger] all[b]) by {
            if b < before.len() {
                assert(all[a] == before[a] && all[b] == before[b]);
            } else {
                assert(all[a] == before[a]);
                assert(before.contains(before[a]));
                lemma_recorded_contains(upper, front, before[a]);
                let i = choose|i: int|
                    0 <= i < front.len() && records(upper, #[trigger] front[i], before[a]);
                assert(front[i] == entries[i] && e == entries[entries.len() - 1]);
                assert(is_below(entries[entries.len() - 1].path, upper));
                lemma_places(upper, entries[i], e);
            }
        }
    }
}

/// Of a set of paths, those that are picked have places of their own too.
proof fn lemma_picked_distinct(s: Seq<Seq<u8>>, pick: spec_fn(Seq<u8>) -> bool)
    requires
        forall|i: int, j: int|
            0 <= i < j < s.len() ==> components(#[trigger] s[i]) != components(#[trigger] s[j]),
    ensures
        forall|i: int, j: int|
            0 <= i < j < s.filter(pick).len() ==> components(#[trigger] s.filter(pick)[i])
                != components(#[trigger] s.filter(pick)[j]),
    decreases s.len(),
{
    reveal(Seq::filter);
    if s.len() > 0 {
        let front = s.drop_last();
        let before = front.filter(pick);
        let all = s.filter(pick);
        assert forall|i: int, j: int| 0 <= i < j < front.len() implies components(
            #[trigger] front[i],
        ) != components(#[trigger] front[j]) by {
            assert(front[i] == s[i] && front[j] == s[j]);
        }
        lemma_picked_distinct(front, pick);
        assert forall|i: int, j: int| 0 <= i < j < all.len() implies components(#[trigger] all[i])
            != components(#[trigger] all[j]) by {
            if j < before.len() {
                assert(all[i] == before[i] && all[j] == before[j]);
            } else {
                assert(all[i] == before[i] && all[j] == s.last());
                assert(before.contains(before[i]));
                front.lemma_filter_contains_rev(pick, before[i]);
                let k = choose|k: int| 0 <= k < front.len() && front[k] == before[i];
                assert(front[k] == s[k] && s.last() == s[s.len() - 1]);
            }
        }
    }
}

/// No two of the collected changes have one place.
pub proof fn lemma_collected_distinct(upper: Seq<u8>, entries: Seq<EntryView>)
    requires
        is_listing(upper, entries),
    ensures
        distinct::<ByRealPath>(collected(upper, entries)),
{
    let first = recorded(upper, entries);
    let paths = vanished(upper, entries);
    let rest = deletions(upper, paths);
    let all = first + rest;
    let there = real_paths(upper, entries);
    let set = sorted_set(hidden(entries));
    lemma_recorded_distinct(upper, entries);
    lemma_sorted_set(hidden(entries));
    lemma_picked_distinct(set, |p: Seq<u8>| !stands_for(there, p));
    assert forall|a: int, b: int| 0 <= a < b < all.len() implies !(ByRealPath::leq(
        #[trigger] all[a],
        #[trigger] all[b],
    ) && ByRealPath::leq(all[b], all[a])) by {
        lemma_path_order(all[a].real_path, all[b].real_path);
        if b < first.len() {
            assert(all[a] == first[a] && all[b] == first[b]);
        } else if a >= first.len() {
            assert(all[a] == rest[a - first.len()] && all[b] == rest[b - first.len()]);
            assert(components(paths[a - first.len()]) != components(paths[b - first.len()]));
        } else {
            assert(all[a] == first[a] && all[b] == rest[b - first.len()]);
            assert(first.contains(first[a]));
            lemma_recorded_contains(upper, entries, first[a]);
            let i = choose|i: int|
                0 <= i < entries.len() && records(upper, #[trigger] entries[i], first[a]);
            let p = paths[b - first.len()];
            assert(paths.contains(p));
            lemma_vanished(upper, entries, p);
            assert(there[i] == first[a].real_path);
        }
    }
    lemma_stable_sorted::<ByRealPath>(all);
    lemma_stable_sort_distinct::<ByRealPath>(all, collected(upper, entries));
}

/// The changes that are collected from the listing of an upper directory concern places of their
/// own.
pub proof fn lemma_collected_is_laid_out(upper: Seq<u8>, entries: Seq<EntryView>, files: Upper)
    requires
        is_listing(upper, entries),
        hidden_in_place(entries),
        shows(files, entries),
    ensures
        laid_out(files, collected(upper, entries)),
{
    let out = collected(upper, entries);
    let there = real_paths(upper, entries);
    lemma_collected_distinct(upper, entries);
    assert forall|i: int| 0 <= i < out.len() implies place(#[trigger] out[i]).len() > 0 by {
        let c = out[i];
        assert(out.contains(c));
        lemma_collected(upper, entries, c);
        if exists|k: int| 0 <= k < entries.len() && records(upper, #[trigger] entries[k], c) {
            let k = choose|k: int| 0 <= k < entries.len() && records(upper, #[trigger] entries[k], c);
            assert(is_below(entries[k].path, upper));
            lemma_entry_place(upper, entries[k]);
        } else {
            lemma_vanished(upper, entries, c.real_path);
            let k = choose|k: int|
                0 <= k < entries.len() && is_hidden_by(c.real_path, #[trigger] entries[k]);
        }
    }
    assert forall|i: int, j: int|
        0 <= i < out.len() && 0 <= j < out.len() && i != j implies apart(
        files,
        #[trigger] out[i],
        #[trigger] out[j],
    ) by {
        let c = out[i];
        let d = out[j];
        assert(out.contains(c) && out.contains(d));
        lemma_path_order(c.real_path, d.real_path);
        if i < j {
            assert(!(ByRealPath::leq(out[i], out[j]) && ByRealPath::leq(out[j], out[i])));
        } else {
            assert(!(ByRealPath::leq(out[j], out[i]) && ByRealPath::leq(out[i], out[j])));
        }
        lemma_collected(upper, entries, c);
        lemma_collected(upper, entries, d);
        if place(c).is_prefix_of(place(d)) {
            lemma_apart(upper, entries, files, c, d);
        }
    }
}

proof fn lemma_apart(
    upper: Seq<u8>,
    entries: Seq<EntryView>,
    files: Upper,
    c: ChangeView,
    d: ChangeView,
)
    requires
        is_listing(upper, entries),
        hidden_in_place(entries),
        shows(files, entries),
        collected(upper, entries).contains(c),
        collected(upper, entries).contains(d),
        place(c) != place(d),
        place(c).is_prefix_of(place(d)),
    ensures
        apart(files, c, d),
{
    let there = real_paths(upper, entries);
    lemma_collected(upper, entries, c);
    lemma_collected(upper, entries, d);
    if exists|k: int| 0 <= k < entries.len() && records(upper, #[trigger] entries[k], c) {
        let i = choose|k: int| 0 <= k < entries.len() && records(upper, #[trigger] entries[k], c);
        assert(is_below(entries[i].path, upper));
        lemma_entry_place(upper, entries[i]);
        if exists|k: int| 0 <= k < entries.len() && records(upper, #[trigger] entries[k], d) {
            let j = choose|k: int| 0 <= k < entries.len() && records(upper, #[trigger] entries[k], d);
            assert(is_below(entries[j].path, upper));
            lemma_places(upper, entries[i], entries[j]);
            assert(i != j);
            assert(lies_below(entries[j], entries[i]));
        }
    } else {
        lemma_vanished(upper, entries, c.real_path);
        let k = choose|k: int|
            0 <= k < entries.len() && is_hidden_by(c.real_path, #[trigger] entries[k]);
        assert(components(c.real_path).len() > 1);
        if exists|k: int| 0 <= k < entries.len() && records(upper, #[trigger] entries[k], d) {
            let j = choose|k: int| 0 <= k < entries.len() && records(upper, #[trigger] entries[k], d);
            lemma_on_the_way_is_listed(upper, entries, j, c.real_path);
        }
    }
}

/// Where what was collected from an upper directory is applied without a failure, every change is
/// there, and of what was deleted nothing is left, nor of what was below it.
pub proof fn lemma_collected_is_settled(
    upper: Seq<u8>,
    entries: Seq<EntryView>,
    files: Upper,
    fs: Files,
    events: Seq<ApplyEventView>,
)
    requires
        is_listing(upper, entries),
        hidden_in_place(entries),
        shows(files, entries),
        is_tree(fs),
        happens(fs, files, started(collected(upper, entries)), events),
        reached(started(collected(upper, entries)), events).phase == ApplyPhase::Finished,
    ensures
        all_settled(
            world(fs, files, started(collected(upper, entries)), events),
            files,
            collected(upper, entries),
        ),
        forall|i: int, k: Seq<Seq<u8>>|
            0 <= i < collected(upper, entries).len() && (#[trigger] collected(upper, entries)[i]).kind
                == ChangeKind::Deleted && place(collected(upper, entries)[i]).is_prefix_of(k) ==> !(
            #[trigger] world(fs, files, started(collected(upper, entries)), events).contains_key(
                k,
            )),
{
    lemma_collected_is_laid_out(upper, entries, files);
    lemma_applied_is_settled(fs, files, collected(upper, entries), events);
}

/// Applying what was collected from an upper directory twice ends as applying it once.
pub proof fn lemma_collected_applied_twice(
    upper: Seq<u8>,
    entries: Seq<EntryView>,
    files: Upper,
    fs: Files,
    first: Seq<ApplyEventView>,
    second: Seq<ApplyEventView>,
)
    requires
        is_listing(upper, entries),
        hidden_in_place(entries),
        shows(files, entries),
        is_tree(fs),
        happens(fs, files, started(collected(upper, entries)), first),
        reached(started(collected(upper, entries)), first).phase == ApplyPhase::Finished,
        happens(
            world(fs, files, started(collected(upper, entries)), first),
            files,
            started(collected(upper, entries)),
            second,
        ),
        is_over(reached(started(collected(upper, entries)), second)),
    ensures
        reached(started(collected(upper, entries)), second).phase == ApplyPhase::Finished,
        world(
            world(fs, files, started(collected(upper, entries)), first),
            files,
            started(collected(upper, entries)),
            second,
        ) == world(fs, files, started(collected(upper, entries)), first),
{
    lemma_collected_is_laid_out(upper, entries, files);
    lemma_apply_twice(fs, files, collected(upper, entries), first, second);
}

} // verus!
