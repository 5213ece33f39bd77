//! Characters, numbers and answers typed at a prompt.

use crate::order::views;
use vstd::prelude::*;
use vstd::string::StringExecFns;
use vstd::utf8::{decode_utf8, valid_utf8};

verus! {

/// The characters of `s`, for access by index.
pub fn chars_of(s: &str) -> (out: Vec<char>)
    ensures
        out@ == s@,
{
    let mut out: Vec<char> = Vec::new();
    for c in it: s.chars()
        invariant
            out@ == it.seq().take(it.index()),
            it.seq() == s@,
    {
        out.push(c);
    }
    out
}

/// The decimal digit that stands for `d`.
pub open spec fn digit_char(d: int) -> char {
    if d == 0 { '0' }
    else if d == 1 { '1' }
    else if d == 2 { '2' }
    else if d == 3 { '3' }
    else if d == 4 { '4' }
    else if d == 5 { '5' }
    else if d == 6 { '6' }
    else if d == 7 { '7' }
    else if d == 8 { '8' }
    else { '9' }
}

/// `n` in decimal, without leading zeros.
pub open spec fn decimal(n: nat) -> Seq<char>
    decreases n,
{
    if n < 10 {
        seq![digit_char(n as int)]
    } else {
        decimal(n / 10).push(digit_char((n % 10) as int))
    }
}

/// `n` in decimal, with a leading minus sign where it is negative.
pub open spec fn decimal_signed(n: int) -> Seq<char> {
    if n < 0 {
        "-"@ + decimal((-n) as nat)
    } else {
        decimal(n as nat)
    }
}

fn digit_str(d: u128) -> (s: &'static str)
    requires
        d < 10,
    ensures
        s@ == seq![digit_char(d as int)],
{
    proof {
        reveal_strlit("0");
        reveal_strlit("1");
        reveal_strlit("2");
        reveal_strlit("3");
        reveal_strlit("4");
        reveal_strlit("5");
        reveal_strlit("6");
        reveal_strlit("7");
        reveal_strlit("8");
        reveal_strlit("9");
    }
    if d == 0 {
        "0"
    } else if d == 1 {
        "1"
    } else if d == 2 {
        "2"
    } else if d == 3 {
        "3"
    } else if d == 4 {
        "4"
    } else if d == 5 {
        "5"
    } else if d == 6 {
        "6"
    } else if d == 7 {
        "7"
    } else if d == 8 {
        "8"
    } else {
        "9"
    }
}

/// Appends `n` in decimal to `out`.
pub fn push_decimal(out: &mut String, n: u128)
    ensures
        final(out)@ == old(out)@ + decimal(n as nat),
    decreases n,
{
    if n >= 10 {
        push_decimal(out, n / 10);
    }
    out.append(digit_str(n % 10));
}

/// Appends `n` in decimal to `out`, after a minus sign where it is negative.
pub fn push_decimal_signed(out: &mut String, n: i32)
    ensures
        final(out)@ == old(out)@ + decimal_signed(n as int),
{
    if n < 0 {
        out.append("-");
        push_decimal(out, (-(n as i64)) as u128);
    } else {
        push_decimal(out, n as u128);
    }
}

/// Every character of `s` is an ASCII digit.
pub open spec fn all_digits(s: Seq<char>) -> bool {
    forall|i: int| 0 <= i < s.len() ==> '0' <= #[trigger] s[i] <= '9'
}

/// The number that the ASCII digits `s` write in decimal.
pub open spec fn digits_value(s: Seq<char>) -> nat
    decreases s.len(),
{
    if s.len() == 0 {
        0
    } else {
        digits_value(s.drop_last()) * 10 + (s.last() as nat - '0' as nat) as nat
    }
}

/// What keeps a string from being read as a number.
#[derive(Debug, Clone, Copy, PartialEq, Eq, Structural)]
pub enum NumberFault {
    /// There is nothing to read.
    Empty,
    /// Something other than a decimal digit was found.
    InvalidDigit,
    /// The digits write a number that does not fit.
    TooLarge,
}

impl NumberFault {
    /// The text of the fault.
    pub open spec fn spec_text(self) -> Seq<char> {
        match self {
            NumberFault::Empty => "cannot parse integer from empty string"@,
            NumberFault::InvalidDigit => "invalid digit found in string"@,
            NumberFault::TooLarge => "number too large to fit in target type"@,
        }
    }

    /// Describes the fault.
    pub fn text(self) -> (s: &'static str)
        ensures
            s@ == self.spec_text(),
    {
        match self {
            NumberFault::Empty => "cannot parse integer from empty string",
            NumberFault::InvalidDigit => "invalid digit found in string",
            NumberFault::TooLarge => "number too large to fit in target type",
        }
    }
}

/// Where the run of digits around `i` ends.
pub open spec fn digits_end(s: Seq<char>, i: int) -> int
    decreases s.len() - i,
{
    if i < s.len() && '0' <= s[i] <= '9' {
        digits_end(s, i + 1)
    } else {
        i
    }
}

/// The 32-bit number that `s` writes: an optional plus sign, then decimal digits and nothing else.
///
/// Of several faults the leftmost counts.
pub open spec fn u32_of(s: Seq<char>) -> Result<u32, NumberFault> {
    let digits = if s.len() > 0 && s[0] == '+' { s.drop_first() } else { s };
    let end = digits_end(digits, 0);
    if s.len() == 0 {
        Err(NumberFault::Empty)
    } else if digits_value(digits.take(end)) > u32::MAX {
        Err(NumberFault::TooLarge)
    } else if end < digits.len() || digits.len() == 0 {
        Err(NumberFault::InvalidDigit)
    } else {
        Ok(digits_value(digits) as u32)
    }
}

proof fn lemma_digits_end(s: Seq<char>, i: int)
    requires
        0 <= i <= s.len(),
        all_digits(s.take(i)),
    ensures
        i <= digits_end(s, i) <= s.len(),
        all_digits(s.take(digits_end(s, i))),
        digits_end(s, 0) == digits_end(s, i),
        digits_end(s, i) < s.len() ==> !('0' <= s[digits_end(s, i)] <= '9'),
    decreases s.len() - i,
{
    lemma_digits_end_from(s, 0, i);
    if i < s.len() && '0' <= s[i] <= '9' {
        assert forall|j: int| 0 <= j < s.take(i + 1).len() implies '0' <= #[trigger] s.take(
            i + 1,
        )[j] <= '9' by {
            if j < i {
                assert(s.take(i)[j] == s[j]);
            }
        }
        lemma_digits_end(s, i + 1);
    }
}

proof fn lemma_digits_end_from(s: Seq<char>, j: int, i: int)
    requires
        0 <= j <= i <= s.len(),
        all_digits(s.take(i)),
    ensures
        digits_end(s, j) == digits_end(s, i),
    decreases i - j,
{
    if j < i {
        assert(s.take(i)[j] == s[j]);
        lemma_digits_end_from(s, j + 1, i);
    }
}

proof fn lemma_digits_value_grows(s: Seq<char>, n: int)
    requires
        0 <= n <= s.len(),
        all_digits(s),
    ensures
        digits_value(s.take(n)) <= digits_value(s),
    decreases s.len() - n,
{
    if n < s.len() {
        lemma_digits_value_grows(s, n + 1);
        assert(s.take(n + 1).drop_last() == s.take(n));
    } else {
        assert(s.take(n) == s);
    }
}

/// Reads a 32-bit number in decimal.
pub fn parse_u32(s: &[char]) -> (value: Result<u32, NumberFault>)
    ensures
        value == u32_of(s@),
{
    if s.len() == 0 {
        return Err(NumberFault::Empty);
    }
    let start: usize = if s[0] == '+' { 1 } else { 0 };
    let ghost digits = s@.skip(start as int);
    proof {
        assert(start == 0 ==> digits == s@);
        assert(start == 1 ==> digits == s@.drop_first());
        assert(digits.take(0) == Seq::<char>::empty());
    }
    if start == s.len() {
        return Err(NumberFault::InvalidDigit);
    }
    let mut total: u32 = 0;
    let mut i: usize = start;
    while i < s.len()
        invariant
            start <= i <= s@.len(),
            0 < s@.len(),
            start < s@.len(),
            start == (if s@[0] == '+' { 1int } else { 0int }),
            digits == s@.skip(start as int),
            digits == (if s@[0] == '+' { s@.drop_first() } else { s@ }),
            all_digits(digits.take(i - start)),
            total as nat == digits_value(digits.take(i - start)),
        decreases s@.len() - i,
    {
        let c = s[i];
        let ghost k = i - start;
        proof {
            lemma_digits_end(digits, k);
        }
        if c < '0' || c > '9' {
            assert(digits[k] == c);
            return Err(NumberFault::InvalidDigit);
        }
        let next: u64 = total as u64 * 10 + (c as u64 - '0' as u64);
        proof {
            let longer = digits.take(k + 1);
            assert(longer.drop_last() == digits.take(k));
            assert(longer.last() == c);
            assert(next as nat == digits_value(longer));
            assert forall|j: int| 0 <= j < longer.len() implies '0' <= #[trigger] longer[j]
                <= '9' by {
                if j < k {
                    assert(digits.take(k)[j] == longer[j]);
                }
            }
            lemma_digits_end(digits, k + 1);
            let end = digits_end(digits, 0);
            lemma_digits_value_grows(digits.take(end), k + 1);
            assert(digits.take(end).take(k + 1) == longer);
        }
        if next > 0xffff_ffff {
            return Err(NumberFault::TooLarge);
        }
        total = next as u32;
        i = i + 1;
    }
    proof {
        lemma_digits_end(digits, digits.len() as int);
        assert(digits.take(digits.len() as int) == digits);
    }
    Ok(total)
}

/// Decimal notation is made of digits, and these write the number.
pub proof fn lemma_decimal_digits(n: nat)
    ensures
        decimal(n).len() > 0,
        all_digits(decimal(n)),
        digits_value(decimal(n)) == n,
    decreases n,
{
    if n < 10 {
        reveal_with_fuel(digits_value, 2);
    } else {
        lemma_decimal_digits(n / 10);
        assert(decimal(n).drop_last() == decimal(n / 10));
    }
}

/// A 32-bit number is read back from its decimal notation.
pub proof fn lemma_u32_of_decimal(n: u32)
    ensures
        u32_of(decimal(n as nat)) == Ok::<u32, NumberFault>(n),
        forall|i: int| 0 <= i < decimal(n as nat).len() ==> '0' <= #[trigger] decimal(n as nat)[i]
            <= '9',
{
    let s = decimal(n as nat);
    lemma_decimal_digits(n as nat);
    assert(s[0] != '+');
    assert(s.take(s.len() as int) == s);
    lemma_digits_end(s, s.len() as int);
}

/// The Unicode property `White_Space`.
pub open spec fn is_white_space(c: char) -> bool {
    ||| '\u{9}' <= c <= '\u{d}'
    ||| c == ' '
    ||| c == '\u{85}'
    ||| c == '\u{a0}'
    ||| c == '\u{1680}'
    ||| '\u{2000}' <= c <= '\u{200a}'
    ||| c == '\u{2028}'
    ||| c == '\u{2029}'
    ||| c == '\u{202f}'
    ||| c == '\u{205f}'
    ||| c == '\u{3000}'
}

/// Tells whether `c` is white space.
pub fn white_space(c: char) -> (b: bool)
    ensures
        b == is_white_space(c),
{
    ('\u{9}' <= c && c <= '\u{d}') || c == ' ' || c == '\u{85}' || c == '\u{a0}' || c == '\u{1680}'
        || ('\u{2000}' <= c && c <= '\u{200a}') || c == '\u{2028}' || c == '\u{2029}' || c
        == '\u{202f}' || c == '\u{205f}' || c == '\u{3000}'
}

/// `s` without its leading white space.
pub open spec fn trim_start(s: Seq<char>) -> Seq<char>
    decreases s.len(),
{
    if s.len() > 0 && is_white_space(s[0]) {
        trim_start(s.drop_first())
    } else {
        s
    }
}

/// `s` without its trailing white space.
pub open spec fn trim_end(s: Seq<char>) -> Seq<char>
    decreases s.len(),
{
    if s.len() > 0 && is_white_space(s.last()) {
        trim_end(s.drop_last())
    } else {
        s
    }
}

/// `c` in lower case where it is an ASCII letter, `c` itself elsewhere.
pub open spec fn ascii_lower(c: char) -> char {
    if 'A' <= c <= 'Z' {
        (c as u32 + 32) as char
    } else {
        c
    }
}

/// What the user meant by the line `s`: the line without the white space around it, in lower case.
pub open spec fn answer(s: Seq<char>) -> Seq<char> {
    trim_end(trim_start(s)).map_values(|c: char| ascii_lower(c))
}

fn to_ascii_lower(c: char) -> (l: char)
    ensures
        l == ascii_lower(c),
{
    if 'A' <= c && c <= 'Z' {
        ((c as u8) + 32) as char
    } else {
        c
    }
}

/// The answer that the user gave by typing `line`.
pub fn read_answer(line: &str) -> (out: Vec<char>)
    ensures
        out@ == answer(line@),
{
    let chars = chars_of(line);
    let mut from: usize = 0;
    assert(chars@.skip(0) == chars@);
    while from < chars.len() && white_space(chars[from])
        invariant
            from <= chars@.len(),
            trim_start(chars@) == trim_start(chars@.skip(from as int)),
        decreases chars@.len() - from,
    {
        assert(chars@.skip(from as int).drop_first() == chars@.skip(from + 1));
        from = from + 1;
    }
    let ghost rest = chars@.skip(from as int);
    assert(rest.len() > 0 ==> rest[0] == chars@[from as int]);
    let mut to: usize = chars.len();
    assert(chars@.subrange(from as int, to as int) == rest);
    while from < to && white_space(chars[to - 1])
        invariant
            from <= to <= chars@.len(),
            trim_end(rest) == trim_end(chars@.subrange(from as int, to as int)),
        decreases to,
    {
        assert(chars@.subrange(from as int, to as int).drop_last() == chars@.subrange(
            from as int,
            to - 1,
        ));
        to = to - 1;
    }
    let ghost body = chars@.subrange(from as int, to as int);
    assert(body.len() > 0 ==> body.last() == chars@[to - 1]);
    let mut out: Vec<char> = Vec::new();
    let mut i: usize = from;
    while i < to
        invariant
            from <= i <= to <= chars@.len(),
            body == chars@.subrange(from as int, to as int),
            out@ == body.take(i - from).map_values(|c: char| ascii_lower(c)),
        decreases to - i,
    {
        out.push(to_ascii_lower(chars[i]));
        i = i + 1;
    }
    assert(body.take(to - from) == body);
    out
}

/// Tells whether the characters `s` spell `word`.
pub fn spells(s: &[char], word: &str) -> (b: bool)
    ensures
        b == (s@ == word@),
{
    let chars = chars_of(word);
    if chars.len() != s.len() {
        return false;
    }
    let mut i: usize = 0;
    while i < s.len()
        invariant
            i <= s@.len() == chars@.len(),
            chars@ == word@,
            forall|j: int| 0 <= j < i ==> s@[j] == chars@[j],
        decreases s@.len() - i,
    {
        if s[i] != chars[i] {
            return false;
        }
        i = i + 1;
    }
    assert(s@ == word@);
    true
}

/// Tells whether a yes-or-no question was answered with yes.
pub fn confirm(line: &str) -> (yes: bool)
    ensures
        yes == (answer(line@) == "y"@ || answer(line@) == "yes"@),
{
    let said = read_answer(line);
    spells(said.as_slice(), "y") || spells(said.as_slice(), "yes")
}

/// What `String::from_utf8_lossy` makes of `bytes`.
pub uninterp spec fn utf8_lossy(bytes: Seq<u8>) -> Seq<char>;

/// Calls `String::from_utf8_lossy`. Bytes that are valid UTF-8 are decoded; in others each
/// invalid part is replaced by U+FFFD, and the outcome is named by `utf8_lossy`.
#[verifier::external_body]
pub(crate) fn from_utf8_lossy(bytes: &[u8]) -> (s: String)
    ensures
        s@ == utf8_lossy(bytes@),
        valid_utf8(bytes@) ==> s@ == decode_utf8(bytes@),
{
    String::from_utf8_lossy(bytes).into_owned()
}

/// Where `path` is valid UTF-8, it is shown as the text that it encodes.
pub open spec fn shown_as_is(path: Seq<u8>) -> bool {
    valid_utf8(path) ==> utf8_lossy(path) == decode_utf8(path)
}

/// The text that a path is shown by.
pub fn display_path(path: &[u8]) -> (s: String)
    ensures
        s@ == utf8_lossy(path@),
        shown_as_is(path@),
{
    from_utf8_lossy(path)
}

/// `text` and then the path `path`.
pub(crate) fn before_path(text: &str, path: &[u8]) -> (s: String)
    ensures
        s@ == text@ + utf8_lossy(path@),
        shown_as_is(path@),
{
    concat(text, display_path(path).as_str())
}

/// The path `path` between two texts.
pub(crate) fn around_path(before: &str, path: &[u8], after: &str) -> (s: String)
    ensures
        s@ == before@ + utf8_lossy(path@) + after@,
        shown_as_is(path@),
{
    let mut s = before_path(before, path);
    s.append(after);
    s
}

/// The number `n` between two texts.
pub(crate) fn around_number(before: &str, n: u128, after: &str) -> (s: String)
    ensures
        s@ == before@ + decimal(n as nat) + after@,
{
    let mut s = before.to_owned();
    push_decimal(&mut s, n);
    s.append(after);
    s
}

/// `a` and then `b`.
pub(crate) fn concat(a: &str, b: &str) -> (s: String)
    ensures
        s@ == a@ + b@,
{
    let mut s = a.to_owned();
    s.append(b);
    s
}

/// Nothing to show.
pub(crate) fn nothing<T: View>() -> (items: Vec<T>)
    ensures
        views(items@) == Seq::<T::V>::empty(),
{
    let items: Vec<T> = Vec::new();
    assert(views(items@) == Seq::<T::V>::empty());
    items
}

/// A single thing to show.
pub(crate) fn just<T: View>(item: T) -> (items: Vec<T>)
    ensures
        views(items@) == seq![item@],
{
    let mut items: Vec<T> = Vec::new();
    items.push(item);
    assert(views(items@) == seq![item@]);
    items
}

/// A line to be shown: on standard output or on standard error.
#[derive(Debug, PartialEq, Eq)]
pub enum Line {
    Stdout(String),
    Stderr(String),
}

/// The model of a [`Line`].
pub enum LineView {
    Stdout(Seq<char>),
    Stderr(Seq<char>),
}

impl View for Line {
    type V = LineView;

    open spec fn view(&self) -> LineView {
        match self {
            Line::Stdout(s) => LineView::Stdout(s@),
            Line::Stderr(s) => LineView::Stderr(s@),
        }
    }
}

/// Lines for standard output.
pub open spec fn out_lines(s: Seq<Seq<char>>) -> Seq<LineView> {
    Seq::new(s.len(), |i: int| LineView::Stdout(s[i]))
}

/// Marks the texts as lines for standard output.
pub fn to_stdout(texts: Vec<String>) -> (lines: Vec<Line>)
    ensures
        views(lines@) == out_lines(views(texts@)),
{
    let mut lines: Vec<Line> = Vec::new();
    let mut i: usize = 0;
    while i < texts.len()
        invariant
            i <= texts@.len(),
            views(lines@) == out_lines(views(texts@).take(i as int)),
        decreases texts@.len() - i,
    {
        let ghost before = views(lines@);
        lines.push(Line::Stdout(texts[i].clone()));
        assert(views(lines@) == before.push(LineView::Stdout(texts@[i as int]@)));
        assert(out_lines(views(texts@).take(i + 1)) == out_lines(
            views(texts@).take(i as int),
        ).push(LineView::Stdout(texts@[i as int]@)));
        i = i + 1;
    }
    assert(views(texts@).take(i as int) == views(texts@));
    lines
}

/// Where the first zero byte stands at or behind `i`; the end of `b` where there is none.
pub open spec fn nul_at(b: Seq<u8>, i: int) -> int
    decreases b.len() - i,
{
    if i >= b.len() || b[i] == 0 {
        i
    } else {
        nul_at(b, i + 1)
    }
}

/// `b` can be handed to the system as a string that ends with a zero byte.
pub open spec fn is_c_string(b: Seq<u8>) -> bool {
    !b.contains(0)
}

/// The position of the first zero byte, if there is one.
pub fn nul_position(b: &[u8]) -> (at: Option<usize>)
    ensures
        at is None == is_c_string(b@),
        at matches Some(i) ==> i == nul_at(b@, 0) && i < b@.len(),
{
    let mut i: usize = 0;
    while i < b.len()
        invariant
            i <= b@.len(),
            nul_at(b@, 0) == nul_at(b@, i as int),
            forall|j: int| 0 <= j < i ==> b@[j] != 0,
        decreases b@.len() - i,
    {
        if b[i] == 0 {
            assert(b@.contains(b@[i as int]));
            return Some(i);
        }
        i = i + 1;
    }
    None
}

proof fn lemma_trim_blank(s: Seq<char>)
    requires
        forall|i: int| 0 <= i < s.len() ==> is_white_space(#[trigger] s[i]),
    ensures
        trim_start(s) == Seq::<char>::empty(),
    decreases s.len(),
{
    if s.len() > 0 {
        assert forall|i: int| 0 <= i < s.drop_first().len() implies is_white_space(
            #[trigger] s.drop_first()[i],
        ) by {
            assert(s[i + 1] == s.drop_first()[i]);
        }
        lemma_trim_blank(s.drop_first());
    } else {
        assert(s == Seq::<char>::empty());
    }
}

proof fn lemma_trim_start_push(s: Seq<char>, c: char)
    ensures
        trim_start(s).len() > 0 ==> trim_start(s.push(c)) == trim_start(s).push(c),
        trim_start(s).len() == 0 && is_white_space(c) ==> trim_start(s.push(c)) == Seq::<
            char,
        >::empty(),
    decreases s.len(),
{
    if s.len() > 0 && is_white_space(s[0]) {
        assert(s.push(c).drop_first() == s.drop_first().push(c));
        lemma_trim_start_push(s.drop_first(), c);
    } else if s.len() == 0 && is_white_space(c) {
        lemma_trim_blank(s.push(c));
    }
}

/// The line end that closes an answer does not change it, nor does other white space behind it.
pub proof fn lemma_answer_line_end(s: Seq<char>, c: char)
    requires
        is_white_space(c),
    ensures
        answer(s.push(c)) == answer(s),
{
    lemma_trim_start_push(s, c);
    let t = trim_start(s);
    if t.len() > 0 {
        assert(t.push(c).drop_last() == t);
    } else {
        assert(t == Seq::<char>::empty());
    }
}

} // verus!
