//! The mount points that `/proc/self/mountinfo` lists.

use crate::order::views;
use crate::path_set::{is_sorted_set, lemma_sorted_set, sorted_set, to_sorted_set};
use crate::text::{chars_of, from_utf8_lossy, is_white_space, utf8_lossy, white_space};
use vstd::prelude::*;
use vstd::slice::slice_to_vec;
use vstd::string::StrSliceExecFns;
use vstd::utf8::{
    decode_utf8, encode_utf8, is_char_boundary, is_char_boundary_iff_not_is_continuation_byte,
    is_char_boundary_start_end_of_seq, is_continuation_byte, partial_valid_utf8_extend_ascii_block,
    pop_first_scalar, take_first_scalar, valid_utf8, valid_utf8_concat,
};

verus! {

/// The byte `\`.
pub const BACKSLASH: u8 = 92;

/// The byte `+`.
pub const PLUS: u8 = 43;

/// The byte `0`.
pub const ZERO: u8 = 48;

/// `b` is an octal digit.
pub open spec fn is_octal(b: u8) -> bool {
    48 <= b <= 55
}

/// The byte that three characters write in octal: three digits, or a plus sign and two digits.
pub open spec fn octal_byte(a: u8, b: u8, c: u8) -> Option<u8> {
    let high = if a == PLUS { 0 } else { a - ZERO };
    let value = high * 64 + (b - ZERO) * 8 + (c - ZERO);
    if (a == PLUS || is_octal(a)) && is_octal(b) && is_octal(c) && value <= 255 {
        Some(value as u8)
    } else {
        None
    }
}

/// `s` with each `\ooo` replaced by the byte that it writes; all else stands as it is.
pub open spec fn unescaped(s: Seq<u8>) -> Seq<u8>
    decreases s.len(),
{
    if s.len() == 0 {
        Seq::empty()
    } else if s[0] == BACKSLASH && s.len() > 3 && octal_byte(s[1], s[2], s[3]) is Some {
        seq![octal_byte(s[1], s[2], s[3])->Some_0] + unescaped(s.skip(4))
    } else {
        seq![s[0]] + unescaped(s.drop_first())
    }
}

/// The three bytes behind each backslash that has as many behind it are whole characters.
pub open spec fn escapes_are_whole(s: Seq<u8>) -> bool {
    forall|i: int|
        0 <= i && i + 3 < s.len() && #[trigger] s[i] == BACKSLASH ==> is_char_boundary(s, i + 4)
}

/// Tells whether every backslash in `raw` can be looked behind.
pub fn can_unescape(raw: &str) -> (b: bool)
    ensures
        b == escapes_are_whole(encode_utf8(raw@)),
{
    let bytes = raw.as_bytes();
    let mut i: usize = 0;
    while i < bytes.len()
        invariant
            i <= bytes@.len(),
            bytes@ == encode_utf8(raw@),
            forall|j: int|
                0 <= j < i && j + 3 < bytes@.len() && #[trigger] bytes@[j] == BACKSLASH
                    ==> is_char_boundary(bytes@, j + 4),
        decreases bytes@.len() - i,
    {
        if bytes[i] == BACKSLASH && bytes.len() - i > 3 {
            if !raw.is_char_boundary(i + 4) {
                return false;
            }
        }
        i = i + 1;
    }
    true
}

fn read_octal(a: u8, b: u8, c: u8) -> (v: Option<u8>)
    ensures
        v == octal_byte(a, b, c),
{
    if !(a == PLUS || (48 <= a && a <= 55)) || !(48 <= b && b <= 55) || !(48 <= c && c <= 55) {
        return None;
    }
    let high: u32 = if a == PLUS { 0 } else { (a - ZERO) as u32 };
    let value: u32 = high * 64 + (b - ZERO) as u32 * 8 + (c - ZERO) as u32;
    if value <= 255 {
        Some(value as u8)
    } else {
        None
    }
}

/// Undoes the octal escapes in a path of the mount table.
pub fn unescape_mountinfo_path(raw: &str) -> (out: String)
    requires
        escapes_are_whole(encode_utf8(raw@)),
    ensures
        out@ == utf8_lossy(unescaped(encode_utf8(raw@))),
        valid_utf8(unescaped(encode_utf8(raw@))) ==> out@ == decode_utf8(
            unescaped(encode_utf8(raw@)),
        ),
{
    let bytes = raw.as_bytes();
    let ghost s = bytes@;
    let mut out: Vec<u8> = Vec::with_capacity(bytes.len());
    let mut index: usize = 0;
    assert(s.skip(0) == s);
    while index < bytes.len()
        invariant
            index <= bytes@.len(),
            bytes@ == s,
            out@ + unescaped(s.skip(index as int)) == unescaped(s),
        decreases bytes@.len() - index,
    {
        let ghost rest = s.skip(index as int);
        let ghost done = out@;
        assert(rest.drop_first() == s.skip(index + 1));
        if bytes[index] == BACKSLASH && bytes.len() - index > 3 {
            assert(rest.skip(4) == s.skip(index + 4));
            if let Some(value) = read_octal(bytes[index + 1], bytes[index + 2], bytes[index + 3]) {
                out.push(value);
                assert(done.push(value) + unescaped(s.skip(index + 4)) == done + (seq![value]
                    + unescaped(s.skip(index + 4))));
                index = index + 4;
                continue;
            }
        }
        out.push(bytes[index]);
        assert(done.push(s[index as int]) + unescaped(s.skip(index + 1)) == done + (seq![
            s[index as int],
        ] + unescaped(s.skip(index + 1))));
        index = index + 1;
    }
    assert(s.skip(index as int) == Seq::<u8>::empty());
    assert(out@ == unescaped(s));
    from_utf8_lossy(out.as_slice())
}

/// `b` is one of the bytes that the kernel escapes: tab, newline, space and backslash.
pub open spec fn is_escaped(b: u8) -> bool {
    b == 9 || b == 10 || b == 32 || b == BACKSLASH
}

/// How the kernel writes the path `s` in the mount table.
pub open spec fn escaped(s: Seq<u8>) -> Seq<u8>
    decreases s.len(),
{
    if s.len() == 0 {
        Seq::empty()
    } else if is_escaped(s[0]) {
        seq![
            BACKSLASH,
            (ZERO + s[0] / 64) as u8,
            (ZERO + s[0] / 8 % 8) as u8,
            (ZERO + s[0] % 8) as u8,
        ] + escaped(s.drop_first())
    } else {
        seq![s[0]] + escaped(s.drop_first())
    }
}

/// Undoing the escapes gives back the path that the kernel wrote.
pub proof fn lemma_unescaped_escaped(s: Seq<u8>)
    ensures
        unescaped(escaped(s)) == s,
    decreases s.len(),
{
    if s.len() > 0 {
        let rest = s.drop_first();
        lemma_unescaped_escaped(rest);
        let e = escaped(s);
        assert(s == seq![s[0]] + rest);
        if is_escaped(s[0]) {
            assert(e.skip(4) == escaped(rest));
            assert(octal_byte(e[1], e[2], e[3]) == Some(s[0]));
        } else {
            assert(e.drop_first() == escaped(rest));
        }
    }
}

proof fn lemma_escaped_add(a: Seq<u8>, b: Seq<u8>)
    ensures
        escaped(a + b) == escaped(a) + escaped(b),
    decreases a.len(),
{
    if a.len() == 0 {
        assert(a + b == b);
        assert(escaped(a) + escaped(b) == escaped(b));
    } else {
        lemma_escaped_add(a.drop_first(), b);
        assert((a + b).drop_first() == a.drop_first() + b);
        let head = escaped(a).take(escaped(a).len() - escaped(a.drop_first()).len());
        assert(head + (escaped(a.drop_first()) + escaped(b)) == (head + escaped(a.drop_first()))
            + escaped(b));
        assert(escaped(a) == head + escaped(a.drop_first()));
    }
}

proof fn lemma_escaped_plain(s: Seq<u8>)
    requires
        forall|i: int| 0 <= i < s.len() ==> !is_escaped(#[trigger] s[i]),
    ensures
        escaped(s) == s,
    decreases s.len(),
{
    if s.len() > 0 {
        assert forall|i: int| 0 <= i < s.drop_first().len() implies !is_escaped(
            #[trigger] s.drop_first()[i],
        ) by {
            assert(s[i + 1] == s.drop_first()[i]);
        }
        lemma_escaped_plain(s.drop_first());
        assert(s == seq![s[0]] + s.drop_first());
    }
}

proof fn lemma_ascii_valid(s: Seq<u8>)
    requires
        forall|i: int| 0 <= i < s.len() ==> #[trigger] s[i] < 128,
    ensures
        valid_utf8(s),
{
    assert(s.subrange(0, 0) == Seq::<u8>::empty());
    assert(s.subrange(0, s.len() as int) == s);
    partial_valid_utf8_extend_ascii_block(s, 0, s.len() as int);
}

/// Behind each escape that the kernel writes the next character starts.
proof fn lemma_escaped_whole(s: Seq<u8>)
    requires
        valid_utf8(s),
    ensures
        valid_utf8(escaped(s)),
        escaped(s).len() > 0 ==> !is_continuation_byte(escaped(s)[0]),
        forall|i: int|
            0 <= i < escaped(s).len() && #[trigger] escaped(s)[i] == BACKSLASH ==> i + 4
                <= escaped(s).len() && (i + 4 < escaped(s).len() ==> !is_continuation_byte(
                escaped(s)[i + 4],
            )),
    decreases s.len(),
{
    if s.len() > 0 {
        let h = take_first_scalar(s);
        let t = pop_first_scalar(s);
        lemma_escaped_whole(t);
        assert(s == h + t);
        lemma_escaped_add(h, t);
        let a = escaped(h);
        let b = escaped(t);
        if is_escaped(s[0]) {
            assert(h.len() == 1 && h[0] == s[0]);
            assert(h.drop_first() == Seq::<u8>::empty());
            reveal_with_fuel(escaped, 2);
            assert(a == seq![
                BACKSLASH,
                (ZERO + s[0] / 64) as u8,
                (ZERO + s[0] / 8 % 8) as u8,
                (ZERO + s[0] % 8) as u8,
            ]);
            lemma_ascii_valid(a);
        } else {
            assert forall|i: int| 0 <= i < h.len() implies !is_escaped(#[trigger] h[i]) by {
                assert(h[i] == s[i]);
            }
            lemma_escaped_plain(h);
            reveal_with_fuel(valid_utf8, 2);
            assert(pop_first_scalar(h) == Seq::<u8>::empty());
            assert(valid_utf8(h));
        }
        valid_utf8_concat(a, b);
        assert forall|i: int|
            0 <= i < escaped(s).len() && #[trigger] escaped(s)[i] == BACKSLASH implies i + 4
            <= escaped(s).len() && (i + 4 < escaped(s).len() ==> !is_continuation_byte(
            escaped(s)[i + 4],
        )) by {
            if i >= a.len() {
                assert(b[i - a.len()] == BACKSLASH);
                if i + 4 < escaped(s).len() {
                    assert(b[i - a.len() + 4] == escaped(s)[i + 4]);
                }
            } else {
                assert(a[i] == BACKSLASH);
                assert(i == 0);
                if i + 4 < escaped(s).len() {
                    assert(b[0] == escaped(s)[4]);
                }
            }
        }
    }
}

/// What the kernel writes for a path that is valid UTF-8 can be unescaped.
pub proof fn lemma_escaped_can_be_unescaped(s: Seq<u8>)
    requires
        valid_utf8(s),
    ensures
        valid_utf8(escaped(s)),
        escapes_are_whole(escaped(s)),
{
    let e = escaped(s);
    lemma_escaped_whole(s);
    assert forall|i: int|
        0 <= i && i + 3 < e.len() && #[trigger] e[i] == BACKSLASH implies is_char_boundary(
        e,
        i + 4,
    ) by {
        if i + 4 < e.len() {
            is_char_boundary_iff_not_is_continuation_byte(e, i + 4);
        } else {
            is_char_boundary_start_end_of_seq(e);
        }
    }
}

/// A path without backslashes is not changed.
pub proof fn lemma_unescaped_plain(s: Seq<u8>)
    requires
        !s.contains(BACKSLASH),
    ensures
        unescaped(s) == s,
    decreases s.len(),
{
    if s.len() > 0 {
        assert(s == seq![s[0]] + s.drop_first());
        assert(s.contains(s[0]));
        assert forall|b: u8| s.drop_first().contains(b) implies s.contains(b) by {
            let i = choose|i: int| 0 <= i < s.drop_first().len() && s.drop_first()[i] == b;
            assert(s[i + 1] == b);
        }
        lemma_unescaped_plain(s.drop_first());
    }
}

/// The lines of `s`. A line ends with a newline, or with a carriage return and a newline; the
/// last line may lack its end.
pub open spec fn lines(s: Seq<char>) -> Seq<Seq<char>>
    decreases s.len(),
{
    if s.len() == 0 {
        Seq::empty()
    } else {
        let n = line_end(s, 0);
        proof {
            lemma_line_end(s, 0);
        }
        if n == s.len() {
            seq![s]
        } else {
            seq![without_return(s.take(n))] + lines(s.skip(n + 1))
        }
    }
}

/// Where the newline stands that ends the line around `i`; the end of `s` where there is none.
pub open spec fn line_end(s: Seq<char>, i: int) -> int
    decreases s.len() - i,
{
    if i >= s.len() || s[i] == '\n' {
        i
    } else {
        line_end(s, i + 1)
    }
}

/// `s` without a carriage return at its end.
pub open spec fn without_return(s: Seq<char>) -> Seq<char> {
    if s.len() > 0 && s.last() == '\r' {
        s.drop_last()
    } else {
        s
    }
}

/// The end of a line is the first newline at or behind `i`, or the end of `s`.
pub proof fn lemma_line_end(s: Seq<char>, i: int)
    requires
        0 <= i <= s.len(),
    ensures
        i <= line_end(s, i) <= s.len(),
        line_end(s, i) < s.len() ==> s[line_end(s, i)] == '\n',
        forall|k: int| i <= k < line_end(s, i) ==> s[k] != '\n',
    decreases s.len() - i,
{
    if i < s.len() && s[i] != '\n' {
        lemma_line_end(s, i + 1);
    }
}

/// Where the separator ` - ` first stands at or behind `i`, if it does.
pub open spec fn separator_at(s: Seq<char>, i: int) -> Option<int>
    decreases s.len() - i,
{
    if i + 3 > s.len() {
        None
    } else if s[i] == ' ' && s[i + 1] == '-' && s[i + 2] == ' ' {
        Some(i)
    } else {
        separator_at(s, i + 1)
    }
}

/// Where the word around `i` ends: at the next white space, or at the end of `s`.
pub open spec fn word_end(s: Seq<char>, i: int) -> int
    decreases s.len() - i,
{
    if i >= s.len() || is_white_space(s[i]) {
        i
    } else {
        word_end(s, i + 1)
    }
}

/// The end of a word lies at or behind `i`.
pub proof fn lemma_word_end(s: Seq<char>, i: int)
    requires
        0 <= i <= s.len(),
    ensures
        i <= word_end(s, i) <= s.len(),
    decreases s.len() - i,
{
    if i < s.len() && !is_white_space(s[i]) {
        lemma_word_end(s, i + 1);
    }
}

/// The words of `s` from `i` on, that is its longest parts without white space.
pub open spec fn words(s: Seq<char>, i: int) -> Seq<Seq<char>>
    decreases s.len() - i,
{
    if i < 0 || i >= s.len() {
        Seq::empty()
    } else if is_white_space(s[i]) {
        words(s, i + 1)
    } else {
        proof {
            lemma_word_end(s, i + 1);
        }
        let end = word_end(s, i + 1);
        seq![s.subrange(i, end)] + words(s, end)
    }
}

/// The mount point that a line of the mount table names: the fifth word before the separator.
pub open spec fn mount_field(line: Seq<char>) -> Option<Seq<char>> {
    match separator_at(line, 0) {
        Some(k) => {
            let fields = words(line.take(k), 0);
            if fields.len() < 5 {
                None
            } else {
                Some(fields[4])
            }
        },
        None => None,
    }
}

/// The path that a mount point of the table writes.
pub open spec fn field_path(field: Seq<char>) -> Seq<u8> {
    encode_utf8(utf8_lossy(unescaped(encode_utf8(field))))
}

/// The mount points that the lines name, as they stand in the table.
pub open spec fn named(lines: Seq<Seq<char>>) -> Seq<Seq<char>>
    decreases lines.len(),
{
    if lines.len() == 0 {
        Seq::empty()
    } else {
        let rest = named(lines.drop_first());
        match mount_field(lines[0]) {
            Some(field) => seq![field] + rest,
            None => rest,
        }
    }
}

/// The paths of the mount points that the table `content` names, in its order.
pub open spec fn mount_paths(content: Seq<char>) -> Seq<Seq<u8>> {
    let fields = named(lines(content));
    Seq::new(fields.len(), |k: int| field_path(fields[k]))
}

/// Every mount point that the table `content` names can be unescaped.
pub open spec fn readable(content: Seq<char>) -> bool {
    let fields = named(lines(content));
    forall|k: int| 0 <= k < fields.len() ==> escapes_are_whole(encode_utf8(#[trigger] fields[k]))
}

/// The fifth word of `s` in the stretch from `from` to `to`, as a span.
fn fifth_word(s: &Vec<char>, from: usize, to: usize) -> (span: Option<(usize, usize)>)
    requires
        from <= to <= s@.len(),
    ensures
        match span {
            Some((a, b)) => from <= a <= b <= to && words(s@.subrange(from as int, to as int), 0).len()
                >= 5 && words(s@.subrange(from as int, to as int), 0)[4] == s@.subrange(
                a as int,
                b as int,
            ),
            None => words(s@.subrange(from as int, to as int), 0).len() < 5,
        },
{
    let ghost part = s@.subrange(from as int, to as int);
    let ghost all = words(part, 0);
    let mut i: usize = from;
    let mut count: usize = 0;
    assert(all.skip(0) == all);
    while i < to
        invariant
            from <= i <= to <= s@.len(),
            part == s@.subrange(from as int, to as int),
            all == words(part, 0),
            count <= 4,
            count <= all.len(),
            words(part, i - from) == all.skip(count as int),
        decreases to - i,
    {
        if white_space(s[i]) {
            i = i + 1;
        } else {
            let start = i;
            i = i + 1;
            while i < to && !white_space(s[i])
                invariant
                    from <= start < i <= to <= s@.len(),
                    part == s@.subrange(from as int, to as int),
                    word_end(part, start - from + 1) == word_end(part, i - from),
                decreases to - i,
            {
                i = i + 1;
            }
            let ghost left = words(part, start - from);
            proof {
                assert(word_end(part, i - from) == i - from);
                assert(left == seq![part.subrange(start - from, i - from)] + words(part, i - from));
                assert(part.subrange(start - from, i - from) == s@.subrange(start as int, i as int));
                assert(all[count as int] == left[0]);
            }
            if count == 4 {
                return Some((start, i));
            }
            count = count + 1;
            proof {
                assert(all.skip(count as int) == left.skip(1));
                assert(left.skip(1) == words(part, i - from));
            }
        }
    }
    assert(all.skip(count as int).len() == 0);
    None
}

/// The span of the mount point that the line from `from` to `to` names.
fn field_span(s: &Vec<char>, from: usize, to: usize) -> (span: Option<(usize, usize)>)
    requires
        from <= to <= s@.len(),
    ensures
        match (span, mount_field(s@.subrange(from as int, to as int))) {
            (Some((a, b)), Some(field)) => from <= a <= b <= to && field == s@.subrange(
                a as int,
                b as int,
            ),
            (None, None) => true,
            _ => false,
        },
{
    let ghost line = s@.subrange(from as int, to as int);
    let mut k: usize = from;
    while to - k >= 3
        invariant
            from <= k <= to <= s@.len(),
            line == s@.subrange(from as int, to as int),
            separator_at(line, 0) == separator_at(line, k - from),
        decreases to - k,
    {
        if s[k] == ' ' && s[k + 1] == '-' && s[k + 2] == ' ' {
            assert(line.take(k - from) == s@.subrange(from as int, k as int));
            return fifth_word(s, from, k);
        }
        k = k + 1;
    }
    None
}

/// The spans of the mount points that the lines of `s` name.
fn field_spans(s: &Vec<char>) -> (out: Vec<(usize, usize)>)
    ensures
        forall|k: int| 0 <= k < out@.len() ==> (#[trigger] out@[k]).0 <= out@[k].1 <= s@.len(),
        named(lines(s@)) == Seq::new(
            out@.len(),
            |k: int| s@.subrange(out@[k].0 as int, out@[k].1 as int),
        ),
{
    let mut out: Vec<(usize, usize)> = Vec::new();
    let ghost fields = |v: Seq<(usize, usize)>|
        Seq::new(v.len(), |k: int| s@.subrange(v[k].0 as int, v[k].1 as int));
    let mut i: usize = 0;
    assert(s@.skip(0) == s@);
    assert(fields(out@) + named(lines(s@)) == named(lines(s@)));
    while i < s.len()
        invariant
            i <= s@.len(),
            forall|k: int| 0 <= k < out@.len() ==> (#[trigger] out@[k]).0 <= out@[k].1 <= s@.len(),
            fields == (|v: Seq<(usize, usize)>|
                Seq::new(v.len(), |k: int| s@.subrange(v[k].0 as int, v[k].1 as int))),
            fields(out@) + named(lines(s@.skip(i as int))) == named(lines(s@)),
        decreases s@.len() - i,
    {
        let ghost rest = s@.skip(i as int);
        let mut end: usize = i;
        while end < s.len() && s[end] != '\n'
            invariant
                i <= end <= s@.len(),
                rest == s@.skip(i as int),
                line_end(rest, 0) == line_end(rest, end - i),
            decreases s@.len() - end,
        {
            end = end + 1;
        }
        let mut stop: usize = end;
        if end < s.len() && i < end && s[end - 1] == '\r' {
            stop = end - 1;
        }
        let ghost line = s@.subrange(i as int, stop as int);
        let next: usize = if end < s.len() { end + 1 } else { end };
        proof {
            assert(line_end(rest, end - i) == end - i);
            assert(rest.take(end - i) == s@.subrange(i as int, end as int));
            if end == s@.len() {
                assert(rest == line);
                assert(s@.skip(next as int) == Seq::<char>::empty());
                assert(lines(rest) == seq![line] + lines(s@.skip(next as int)));
            } else {
                assert(rest.skip(end - i + 1) == s@.skip(next as int));
                assert(without_return(rest.take(end - i)) == line);
                assert(lines(rest) == seq![line] + lines(s@.skip(next as int)));
            }
            assert(lines(rest).drop_first() == lines(s@.skip(next as int)));
        }
        let ghost before = out@;
        if let Some(span) = field_span(s, i, stop) {
            out.push(span);
            proof {
                let field = s@.subrange(span.0 as int, span.1 as int);
                assert(named(lines(rest)) == seq![field] + named(lines(s@.skip(next as int))));
                assert(fields(out@) == fields(before).push(field));
                assert(fields(before).push(field) + named(lines(s@.skip(next as int))) == fields(
                    before,
                ) + (seq![field] + named(lines(s@.skip(next as int)))));
            }
        }
        i = next;
    }
    assert(s@.skip(i as int) == Seq::<char>::empty());
    assert(fields(out@) == named(lines(s@)));
    out
}

/// Tells whether every mount point that the table `content` names can be unescaped.
pub fn can_read_mount_points(content: &str) -> (b: bool)
    ensures
        b == readable(content@),
{
    let chars = chars_of(content);
    let spans = field_spans(&chars);
    let ghost fields = named(lines(content@));
    let mut i: usize = 0;
    while i < spans.len()
        invariant
            i <= spans@.len(),
            chars@ == content@,
            fields == Seq::new(
                spans@.len(),
                |k: int| chars@.subrange(spans@[k].0 as int, spans@[k].1 as int),
            ),
            fields == named(lines(content@)),
            forall|k: int|
                0 <= k < spans@.len() ==> (#[trigger] spans@[k]).0 <= spans@[k].1 <= chars@.len(),
            forall|k: int| 0 <= k < i ==> escapes_are_whole(encode_utf8(#[trigger] fields[k])),
        decreases spans@.len() - i,
    {
        let raw = content.substring_char(spans[i].0, spans[i].1);
        assert(raw@ == fields[i as int]);
        if !can_unescape(raw) {
            return false;
        }
        i = i + 1;
    }
    true
}

/// The mount points that the mount table `content` names, sorted and without repetition.
pub open spec fn mount_points(content: Seq<char>) -> Seq<Seq<u8>> {
    sorted_set(mount_paths(content))
}

/// The mount points are the sorted set of the paths that the table names.
pub proof fn lemma_mount_points(content: Seq<char>)
    ensures
        is_sorted_set(mount_paths(content), mount_points(content)),
{
    lemma_sorted_set(mount_paths(content));
}

/// The mount points that the mount table `content` names, sorted and without repetition.
pub fn read_mount_points(content: &str) -> (out: Vec<Vec<u8>>)
    requires
        readable(content@),
    ensures
        views(out@) == mount_points(content@),
{
    let chars = chars_of(content);
    let spans = field_spans(&chars);
    let ghost fields = named(lines(content@));
    let ghost all = mount_paths(content@);
    let mut mounts: Vec<Vec<u8>> = Vec::new();
    let mut i: usize = 0;
    while i < spans.len()
        invariant
            i <= spans@.len(),
            chars@ == content@,
            fields == Seq::new(
                spans@.len(),
                |k: int| chars@.subrange(spans@[k].0 as int, spans@[k].1 as int),
            ),
            fields == named(lines(content@)),
            all == mount_paths(content@),
            readable(content@),
            forall|k: int|
                0 <= k < spans@.len() ==> (#[trigger] spans@[k]).0 <= spans@[k].1 <= chars@.len(),
            views(mounts@) == all.take(i as int),
        decreases spans@.len() - i,
    {
        let raw = content.substring_char(spans[i].0, spans[i].1);
        assert(raw@ == fields[i as int]);
        let path = unescape_mountinfo_path(raw);
        let ghost before = views(mounts@);
        mounts.push(slice_to_vec(path.as_str().as_bytes()));
        proof {
            assert(views(mounts@) == before.push(field_path(fields[i as int])));
            assert(all.take(i + 1) == all.take(i as int).push(all[i as int]));
        }
        i = i + 1;
    }
    assert(all.take(i as int) == all);
    to_sorted_set(mounts)
}

} // verus!
