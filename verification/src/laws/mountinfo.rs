//! What the mount table says.

use crate::mountinfo::{
    escapes_are_whole, field_path, line_end, lines, mount_field, mount_paths, mount_points, named,
    octal_byte, readable, separator_at, unescaped, word_end, words, BACKSLASH,
};
use crate::path::{components, path_leq};
use crate::path_set::{lemma_sorted_set, lemma_sorted_set_members, stands_for};
use crate::text::{is_white_space, utf8_lossy};
use vstd::prelude::*;
use vstd::utf8::{encode_utf8, is_char_boundary};

verus! {

/// Every byte can be written as a backslash and three octal digits, and is read back from them.
pub proof fn lemma_octal_escape(v: u8, rest: Seq<u8>)
    ensures
        unescaped(
            seq![
                BACKSLASH,
                (48 + v / 64) as u8,
                (48 + v / 8 % 8) as u8,
                (48 + v % 8) as u8,
            ] + rest,
        ) == seq![v] + unescaped(rest),
{
    let e = seq![BACKSLASH, (48 + v / 64) as u8, (48 + v / 8 % 8) as u8, (48 + v % 8) as u8];
    let s = e + rest;
    assert(s.skip(4) == rest);
    assert(s[0] == e[0] && s[1] == e[1] && s[2] == e[2] && s[3] == e[3]);
    assert((v / 64) * 64 + (v / 8 % 8) * 8 + v % 8 == v) by (bit_vector);
    assert(v / 64 <= 3) by (bit_vector);
}

/// Three characters write a byte only where they are octal digits, or a plus sign and two of them,
/// and the number is less than 256.
pub proof fn lemma_octal_digits(a: u8, b: u8, c: u8)
    ensures
        octal_byte(a, b, c) is Some == ((a == 43 || 48 <= a <= 55) && 48 <= b <= 55 && 48 <= c <= 55
            && (a == 43 || a <= 51)),
        octal_byte(a, b, c) matches Some(v) ==> v == (if a == 43 {
            0
        } else {
            a - 48
        }) * 64 + (b - 48) * 8 + (c - 48),
{
}

/// Any other byte, and a backslash that starts no escape, stands for itself.
pub proof fn lemma_no_escape(b: u8, rest: Seq<u8>)
    requires
        b != BACKSLASH || rest.len() < 3 || octal_byte(rest[0], rest[1], rest[2]) is None,
    ensures
        unescaped(Seq::empty()) == Seq::<u8>::empty(),
        unescaped(seq![b] + rest) == seq![b] + unescaped(rest),
{
    let s = seq![b] + rest;
    assert(s.drop_first() == rest);
    if rest.len() >= 3 {
        assert(s[1] == rest[0] && s[2] == rest[1] && s[3] == rest[2]);
    }
}

proof fn lemma_line_end_at(s: Seq<char>, i: int, k: int)
    requires
        0 <= i <= k <= s.len(),
        forall|j: int| 0 <= j < k ==> s[j] != '\n',
        k < s.len() ==> s[k] == '\n',
    ensures
        line_end(s, i) == k,
    decreases k - i,
{
    if i < k {
        lemma_line_end_at(s, i + 1, k);
    }
}

/// A text falls into lines at its newlines. A carriage return before a newline goes with it, and
/// the last line may lack its end.
pub proof fn lemma_lines(line: Seq<char>, rest: Seq<char>)
    requires
        !line.contains('\n'),
    ensures
        lines(Seq::empty()) == Seq::<Seq<char>>::empty(),
        line.len() > 0 ==> lines(line) == seq![line],
        lines(line + seq!['\n'] + rest) == seq![
            if line.len() > 0 && line.last() == '\r' {
                line.drop_last()
            } else {
                line
            },
        ] + lines(rest),
{
    assert forall|j: int| 0 <= j < line.len() implies line[j] != '\n' by {
        assert(line.contains(line[j]));
    }
    let s = line + seq!['\n'] + rest;
    let k = line.len() as int;
    assert forall|j: int| 0 <= j < k implies s[j] != '\n' by {
        assert(s[j] == line[j]);
    }
    lemma_line_end_at(s, 0, k);
    lemma_line_end_at(line, 0, k);
    assert(s.take(k) == line);
    assert(s.skip(k + 1) == rest);
}

/// The separator is found where it first stands.
pub proof fn lemma_separator(s: Seq<char>, i: int)
    requires
        0 <= i,
    ensures
        separator_at(s, i) matches Some(k) ==> i <= k && k + 3 <= s.len() && s[k] == ' ' && s[k + 1]
            == '-' && s[k + 2] == ' ',
        forall|j: int|
            i <= j && j + 3 <= s.len() && #[trigger] s[j] == ' ' && s[j + 1] == '-' && s[j + 2]
                == ' ' ==> (separator_at(s, i) matches Some(k) && k <= j),
    decreases s.len() - i,
{
    if i + 3 <= s.len() {
        lemma_separator(s, i + 1);
    }
}

proof fn lemma_word_end_behind(p: Seq<char>, s: Seq<char>, i: int)
    requires
        0 <= i <= s.len(),
    ensures
        word_end(p + s, p.len() + i) == p.len() + word_end(s, i),
        i <= word_end(s, i) <= s.len(),
    decreases s.len() - i,
{
    if i < s.len() && !is_white_space(s[i]) {
        lemma_word_end_behind(p, s, i + 1);
    }
}

proof fn lemma_words_behind(p: Seq<char>, s: Seq<char>, i: int)
    requires
        0 <= i <= s.len(),
    ensures
        words(p + s, p.len() + i) == words(s, i),
    decreases s.len() - i,
{
    if i < s.len() {
        assert((p + s)[p.len() + i] == s[i]);
        if is_white_space(s[i]) {
            lemma_words_behind(p, s, i + 1);
        } else {
            lemma_word_end_behind(p, s, i + 1);
            let end = word_end(s, i + 1);
            lemma_words_behind(p, s, end);
            assert((p + s).subrange(p.len() + i, p.len() + end) == s.subrange(i, end));
        }
    }
}

proof fn lemma_word_end_at(s: Seq<char>, i: int, k: int)
    requires
        0 <= i <= k <= s.len(),
        forall|j: int| 0 <= j < k ==> !is_white_space(#[trigger] s[j]),
        k < s.len() ==> is_white_space(s[k]),
    ensures
        word_end(s, i) == k,
    decreases k - i,
{
    if i < k {
        assert(!is_white_space(s[i]));
        lemma_word_end_at(s, i + 1, k);
    }
}

/// A text falls into words at its white space, of which any amount may stand around them.
pub proof fn lemma_words(word: Seq<char>, c: char, rest: Seq<char>)
    requires
        word.len() > 0,
        forall|i: int| 0 <= i < word.len() ==> !is_white_space(#[trigger] word[i]),
        is_white_space(c),
    ensures
        words(Seq::empty(), 0) == Seq::<Seq<char>>::empty(),
        words(word, 0) == seq![word],
        words(seq![c] + rest, 0) == words(rest, 0),
        words(word + (seq![c] + rest), 0) == seq![word] + words(rest, 0),
{
    let n = word.len() as int;
    lemma_word_end_at(word, 1, n);
    assert(word.subrange(0, n) == word);
    assert(words(word, n) == Seq::<Seq<char>>::empty());
    lemma_words_behind(seq![c], rest, 0);
    let s = word + (seq![c] + rest);
    assert forall|j: int| 0 <= j < n implies !is_white_space(#[trigger] s[j]) by {
        assert(s[j] == word[j]);
    }
    assert(s[n] == c);
    lemma_word_end_at(s, 1, n);
    assert(s.subrange(0, n) == word);
    lemma_words_behind(word, seq![c] + rest, 0);
    assert(words(s, n) == words(seq![c] + rest, 0));
}

/// A line names the fifth word before the separator as a mount point; with fewer words there, or
/// without the separator, it names none.
pub proof fn lemma_mount_field(left: Seq<char>, tail: Seq<char>, line: Seq<char>)
    requires
        separator_at(left + " - "@ + tail, 0) == Some(left.len() as int),
        separator_at(line, 0) is None,
    ensures
        mount_field(line) is None,
        words(left, 0).len() < 5 ==> mount_field(left + " - "@ + tail) is None,
        words(left, 0).len() >= 5 ==> mount_field(left + " - "@ + tail) == Some(words(left, 0)[4]),
{
    let s = left + " - "@ + tail;
    assert(s.take(left.len() as int) == left);
}

proof fn lemma_named_first(first: Seq<char>, rest: Seq<Seq<char>>)
    ensures
        named(seq![first] + rest) == (match mount_field(first) {
            Some(field) => seq![field] + named(rest),
            None => named(rest),
        }),
{
    assert((seq![first] + rest).drop_first() == rest);
}

/// The table is read line by line: each line that names a mount point adds its path, and no line
/// is passed over.
pub proof fn lemma_table(line: Seq<char>, rest: Seq<char>)
    requires
        !line.contains('\n'),
        line.len() > 0 ==> line.last() != '\r',
    ensures
        mount_paths(Seq::empty()) == Seq::<Seq<u8>>::empty(),
        mount_paths(line + seq!['\n'] + rest) == (match mount_field(line) {
            Some(field) => seq![encode_utf8(utf8_lossy(unescaped(encode_utf8(field))))]
                + mount_paths(rest),
            None => mount_paths(rest),
        }),
{
    lemma_lines(line, rest);
    lemma_named_first(line, lines(rest));
    let s = line + seq!['\n'] + rest;
    let fields = named(lines(s));
    let others = named(lines(rest));
    if let Some(field) = mount_field(line) {
        assert(fields == seq![field] + others);
        assert(field_path(field) == encode_utf8(utf8_lossy(unescaped(encode_utf8(field)))));
        assert(mount_paths(s) =~= seq![field_path(field)] + mount_paths(rest));
    } else {
        assert(mount_paths(s) =~= mount_paths(rest));
    }
    assert(mount_paths(Seq::empty()) =~= Seq::<Seq<u8>>::empty());
}

/// The mount points are the paths of the table, each place once and in ascending order: none is
/// left out, and none is made up.
pub proof fn lemma_mount_points(table: Seq<char>)
    ensures
        forall|k: int|
            0 <= k < mount_paths(table).len() ==> exists|i: int|
                0 <= i < mount_points(table).len() && components(#[trigger] mount_points(table)[i])
                    == components(#[trigger] mount_paths(table)[k]),
        forall|i: int|
            0 <= i < mount_points(table).len() ==> mount_paths(table).contains(
                #[trigger] mount_points(table)[i],
            ),
        forall|i: int, j: int|
            0 <= i < j < mount_points(table).len() ==> path_leq(
                #[trigger] mount_points(table)[i],
                #[trigger] mount_points(table)[j],
            ) && components(mount_points(table)[i]) != components(mount_points(table)[j]),
{
    let all = mount_paths(table);
    let set = mount_points(table);
    lemma_sorted_set(all);
    assert forall|k: int| 0 <= k < all.len() implies exists|i: int|
        0 <= i < set.len() && components(#[trigger] set[i]) == components(#[trigger] all[k]) by {
        assert(stands_for(set, all[k]));
    }
    assert forall|i: int| 0 <= i < set.len() implies all.contains(#[trigger] set[i]) by {
        assert(set.contains(set[i]));
        lemma_sorted_set_members(all, set[i]);
    }
}

/// The last line counts without its end too.
pub proof fn lemma_last_line(line: Seq<char>)
    requires
        !line.contains('\n'),
        line.len() > 0,
    ensures
        mount_paths(line) == (match mount_field(line) {
            Some(field) => seq![encode_utf8(utf8_lossy(unescaped(encode_utf8(field))))],
            None => Seq::empty(),
        }),
{
    lemma_lines(line, Seq::empty());
    lemma_named_first(line, Seq::empty());
    assert(seq![line] + Seq::<Seq<char>>::empty() == seq![line]);
    assert(named(Seq::empty()) == Seq::<Seq<char>>::empty());
    if let Some(field) = mount_field(line) {
        assert(named(seq![line]) =~= seq![field]);
        assert(mount_paths(line) =~= seq![field_path(field)]);
    } else {
        assert(mount_paths(line) =~= Seq::empty());
    }
}

/// A table can be read where every mount point that it names can be: behind each of its
/// backslashes, where three bytes follow, these are whole characters.
pub proof fn lemma_readable(line: Seq<char>, rest: Seq<char>)
    requires
        !line.contains('\n'),
        line.len() > 0 ==> line.last() != '\r',
    ensures
        readable(Seq::empty()),
        mount_field(line) is None ==> readable(line + seq!['\n'] + rest) == readable(rest),
        mount_field(line) matches Some(field) ==> readable(line + seq!['\n'] + rest) == (readable(
            rest,
        ) && forall|i: int|
            0 <= i && i + 4 <= encode_utf8(field).len() && #[trigger] encode_utf8(field)[i]
                == BACKSLASH ==> is_char_boundary(encode_utf8(field), i + 4)),
{
    lemma_lines(line, rest);
    lemma_named_first(line, lines(rest));
    let s = line + seq!['\n'] + rest;
    let fields = named(lines(s));
    let others = named(lines(rest));
    if let Some(field) = mount_field(line) {
        assert(fields == seq![field] + others);
        if readable(s) {
            assert(escapes_are_whole(encode_utf8(fields[0])));
            assert forall|k: int| 0 <= k < others.len() implies escapes_are_whole(
                encode_utf8(#[trigger] others[k]),
            ) by {
                assert(fields[k + 1] == others[k]);
            }
        }
        if readable(rest) && escapes_are_whole(encode_utf8(field)) {
            assert forall|k: int| 0 <= k < fields.len() implies escapes_are_whole(
                encode_utf8(#[trigger] fields[k]),
            ) by {
                if k > 0 {
                    assert(fields[k] == others[k - 1]);
                }
            }
        }
    }
}

} // verus!
