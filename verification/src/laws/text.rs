//! What numbers, answers and lines mean.

use crate::os::opt_text;
use crate::text::{
    all_digits, answer, confirm, decimal, decimal_signed, digits_end, digits_value,
    is_white_space, lemma_decimal_digits, nul_at, nul_position, out_lines, trim_end, trim_start, u32_of, Line, LineView,
    NumberFault,
};
use crate::user::opt_view;
use vstd::prelude::*;

verus! {

/// The position of the first zero byte is where one stands and none stands before.
pub proof fn lemma_first_nul(b: Seq<u8>, at: int)
    requires
        0 <= at < b.len(),
        b[at] == 0,
        !b.take(at).contains(0u8),
    ensures
        nul_at(b, 0) == at,
{
    assert forall|i: int| 0 <= i < at implies b[i] != 0 by {
        assert(b.take(at)[i] == b[i]);
        assert(b.take(at).contains(b.take(at)[i]));
    }
    lemma_nul_from(b, 0, at);
}

proof fn lemma_nul_from(b: Seq<u8>, i: int, at: int)
    requires
        0 <= i <= at < b.len(),
        b[at] == 0,
        forall|k: int| 0 <= k < at ==> b[k] != 0,
    ensures
        nul_at(b, i) == at,
    decreases at - i,
{
    if i < at {
        lemma_nul_from(b, i + 1, at);
    }
}

/// Digits write a number place by place.
pub proof fn lemma_place_value(s: Seq<char>, c: char)
    requires
        '0' <= c <= '9',
    ensures
        digits_value(Seq::empty()) == 0,
        digits_value(s.push(c)) == 10 * digits_value(s) + (c as int - '0' as int),
{
    assert(s.push(c).drop_last() == s);
}

/// Decimal notation is made of digits that write the number, and does not start with a zero unless
/// it is one.
pub proof fn lemma_decimal_notation(n: nat)
    ensures
        decimal(n).len() > 0,
        all_digits(decimal(n)),
        digits_value(decimal(n)) == n,
        n > 0 ==> decimal(n)[0] != '0',
        n < 10 ==> decimal(n).len() == 1,
    decreases n,
{
    lemma_decimal_digits(n);
    if n >= 10 {
        lemma_decimal_notation(n / 10);
        assert(decimal(n)[0] == decimal(n / 10)[0]);
    }
}

/// A negative number is written with a minus sign before it, any other without.
pub proof fn lemma_signed_notation(n: int)
    ensures
        n >= 0 ==> decimal_signed(n) == decimal(n as nat),
        n < 0 ==> decimal_signed(n) == seq!['-'] + decimal((-n) as nat),
{
    reveal_strlit("-");
    assert("-"@ =~= seq!['-']);
}

/// What stands behind an optional plus sign.
pub open spec fn unsigned_part(s: Seq<char>) -> Seq<char> {
    if s.len() > 0 && s[0] == '+' {
        s.drop_first()
    } else {
        s
    }
}

/// A text is read as a number exactly where, behind an optional plus sign, it consists of digits,
/// of at least one, that write a number of 32 bits; and it is that number that is read.
pub proof fn lemma_numbers_read(s: Seq<char>)
    ensures
        u32_of(s) is Ok == (unsigned_part(s).len() > 0 && all_digits(unsigned_part(s))
            && digits_value(unsigned_part(s)) <= 0xffff_ffff),
        u32_of(s) matches Ok(n) ==> n == digits_value(unsigned_part(s)),
        (u32_of(s) == Err::<u32, NumberFault>(NumberFault::Empty)) == (s.len() == 0),
        u32_of(seq!['+']) == Err::<u32, NumberFault>(NumberFault::InvalidDigit),
        unsigned_part(s).len() > 0 && all_digits(unsigned_part(s)) && digits_value(unsigned_part(s))
            > 0xffff_ffff ==> u32_of(s) == Err::<u32, NumberFault>(NumberFault::TooLarge),
{
    let d = unsigned_part(s);
    lemma_run_of_digits(d, 0);
    let end = digits_end(d, 0);
    if all_digits(d) {
        assert(end == d.len()) by {
            if end < d.len() {
                assert('0' <= d[end] <= '9');
            }
        }
        assert(d.take(end) == d);
    } else if end == d.len() {
        assert(d.take(end) == d);
    }
    assert(seq!['+'].drop_first() == Seq::<char>::empty());
    assert(Seq::<char>::empty().take(0) == Seq::<char>::empty());
    assert(digits_end(Seq::<char>::empty(), 0) == 0);
}

/// A character that is no digit is the fault, unless the digits before it are already too many.
pub proof fn lemma_first_fault(s: Seq<char>, k: int)
    requires
        0 <= k < unsigned_part(s).len(),
        all_digits(unsigned_part(s).take(k)),
        !('0' <= unsigned_part(s)[k] <= '9'),
    ensures
        u32_of(s) == Err::<u32, NumberFault>(
            if digits_value(unsigned_part(s).take(k)) > 0xffff_ffff {
                NumberFault::TooLarge
            } else {
                NumberFault::InvalidDigit
            },
        ),
{
    let d = unsigned_part(s);
    lemma_digits_end_at(d, 0, k);
}

proof fn lemma_digits_end_at(s: Seq<char>, i: int, k: int)
    requires
        0 <= i <= k < s.len(),
        all_digits(s.take(k)),
        !('0' <= s[k] <= '9'),
    ensures
        digits_end(s, i) == k,
    decreases k - i,
{
    if i < k {
        assert(s.take(k)[i] == s[i]);
        lemma_digits_end_at(s, i + 1, k);
    }
}

proof fn lemma_run_of_digits(s: Seq<char>, i: int)
    requires
        0 <= i <= s.len(),
    ensures
        i <= digits_end(s, i) <= s.len(),
        digits_end(s, i) < s.len() ==> !('0' <= s[digits_end(s, i)] <= '9'),
        forall|k: int| i <= k < digits_end(s, i) ==> '0' <= #[trigger] s[k] <= '9',
    decreases s.len() - i,
{
    if i < s.len() && '0' <= s[i] <= '9' {
        lemma_run_of_digits(s, i + 1);
    }
}

/// All characters are white space.
pub open spec fn is_blank(s: Seq<char>) -> bool {
    forall|i: int| 0 <= i < s.len() ==> is_white_space(#[trigger] s[i])
}

proof fn lemma_trim_start(pre: Seq<char>, rest: Seq<char>)
    requires
        is_blank(pre),
        rest.len() == 0 || !is_white_space(rest[0]),
    ensures
        trim_start(pre + rest) == rest,
    decreases pre.len(),
{
    if pre.len() > 0 {
        assert((pre + rest).drop_first() == pre.drop_first() + rest);
        assert forall|i: int| 0 <= i < pre.drop_first().len() implies is_white_space(
            #[trigger] pre.drop_first()[i],
        ) by {
            assert(pre.drop_first()[i] == pre[i + 1]);
        }
        lemma_trim_start(pre.drop_first(), rest);
        assert((pre + rest)[0] == pre[0]);
    } else {
        assert(pre + rest == rest);
    }
}

proof fn lemma_trim_end(rest: Seq<char>, post: Seq<char>)
    requires
        is_blank(post),
        rest.len() == 0 || !is_white_space(rest.last()),
    ensures
        trim_end(rest + post) == rest,
    decreases post.len(),
{
    if post.len() > 0 {
        assert((rest + post).drop_last() == rest + post.drop_last());
        assert forall|i: int| 0 <= i < post.drop_last().len() implies is_white_space(
            #[trigger] post.drop_last()[i],
        ) by {
            assert(post.drop_last()[i] == post[i]);
        }
        lemma_trim_end(rest, post.drop_last());
        assert((rest + post).last() == post.last());
    } else {
        assert(rest + post == rest);
    }
}

/// What is typed means the same whatever white space stands around it and whatever the case of its
/// letters: the answer has the characters between, in lower case.
pub proof fn lemma_answers(pre: Seq<char>, core: Seq<char>, post: Seq<char>)
    requires
        is_blank(pre),
        is_blank(post),
        core.len() > 0 ==> !is_white_space(core[0]) && !is_white_space(core.last()),
    ensures
        answer(pre + core + post).len() == core.len(),
        forall|i: int|
            0 <= i < core.len() ==> #[trigger] answer(pre + core + post)[i] == (if 'A' <= core[i]
                <= 'Z' {
                (core[i] as u32 + 32) as char
            } else {
                core[i]
            }),
{
    let rest = core + post;
    assert(pre + core + post == pre + rest);
    if core.len() > 0 {
        assert(rest[0] == core[0]);
        lemma_trim_start(pre, rest);
        lemma_trim_end(core, post);
    } else {
        let all = pre + rest;
        assert forall|i: int| 0 <= i < all.len() implies is_white_space(#[trigger] all[i]) by {
            if i < pre.len() {
                assert(all[i] == pre[i]);
            } else {
                assert(all[i] == post[i - pre.len()]);
            }
        }
        lemma_trim_start(all, Seq::empty());
        assert(all + Seq::<char>::empty() == all);
        assert(trim_end(Seq::<char>::empty()) == Seq::<char>::empty());
    }
}

/// Texts become lines on standard output one for one.
pub proof fn lemma_all_on_stdout(texts: Seq<Seq<char>>)
    ensures
        out_lines(texts).len() == texts.len(),
        forall|i: int|
            0 <= i < texts.len() ==> #[trigger] out_lines(texts)[i] == LineView::Stdout(texts[i]),
{
}

/// White space is what Unicode calls so: the tab and the four controls behind it, and the spaces
/// and the separators of lines and paragraphs.
pub proof fn lemma_white_space(c: char)
    ensures
        is_white_space(c) == (9 <= c as u32 <= 13 || seq![
            0x20u32,
            0x85u32,
            0xa0u32,
            0x1680u32,
            0x2000u32,
            0x2001u32,
            0x2002u32,
            0x2003u32,
            0x2004u32,
            0x2005u32,
            0x2006u32,
            0x2007u32,
            0x2008u32,
            0x2009u32,
            0x200au32,
            0x2028u32,
            0x2029u32,
            0x202fu32,
            0x205fu32,
            0x3000u32,
        ].contains(c as u32)),
{
    let spaces = seq![
        0x20u32,
        0x85u32,
        0xa0u32,
        0x1680u32,
        0x2000u32,
        0x2001u32,
        0x2002u32,
        0x2003u32,
        0x2004u32,
        0x2005u32,
        0x2006u32,
        0x2007u32,
        0x2008u32,
        0x2009u32,
        0x200au32,
        0x2028u32,
        0x2029u32,
        0x202fu32,
        0x205fu32,
        0x3000u32,
    ];
    let n = c as u32;
    assert(spaces[0] == 0x20 && spaces[1] == 0x85 && spaces[2] == 0xa0 && spaces[3] == 0x1680);
    assert(spaces[15] == 0x2028 && spaces[16] == 0x2029 && spaces[17] == 0x202f && spaces[18]
        == 0x205f && spaces[19] == 0x3000);
    if 0x2000 <= n <= 0x200a {
        assert(spaces[n - 0x2000 + 4] == n);
    }
}

/// Lines go where they say, and an optional text is there where it is.
pub proof fn lemma_what_lines_say(line: Line, text: Option<String>, name: Option<&str>)
    ensures
        match line {
            Line::Stdout(t) => line@ == LineView::Stdout(t@),
            Line::Stderr(t) => line@ == LineView::Stderr(t@),
        },
        match text {
            Some(t) => opt_text(text) == Some(t@),
            None => opt_text(text) is None,
        },
        match name {
            Some(t) => opt_view(name) == Some(t@),
            None => opt_view(name) is None,
        },
{
}

/// What is said of a text that is no number.
pub proof fn lemma_faults_are_told()
    ensures
        NumberFault::Empty.spec_text() == "cannot parse integer from empty string"@,
        NumberFault::InvalidDigit.spec_text() == "invalid digit found in string"@,
        NumberFault::TooLarge.spec_text() == "number too large to fit in target type"@,
{
}

/// Only `y` and `yes` agree.
pub proof fn lemma_agreeing(line: &str, yes: bool)
    requires
        call_ensures(confirm, (line,), yes),
    ensures
        yes == (answer(line@) == seq!['y'] || answer(line@) == seq!['y', 'e', 's']),
{
    reveal_strlit("y");
    reveal_strlit("yes");
    assert("y"@ =~= seq!['y']);
    assert("yes"@ =~= seq!['y', 'e', 's']);
}

/// A zero byte is found where there is one, and the first is found.
pub proof fn lemma_finding_nul(b: &[u8], at: Option<usize>)
    requires
        call_ensures(nul_position, (b,), at),
    ensures
        at is Some == b@.contains(0u8),
        at matches Some(i) ==> i < b@.len() && b@[i as int] == 0 && forall|j: int|
            0 <= j < i ==> b@[j] != 0,
{
    if let Some(i) = at {
        lemma_nul_at_is_first(b@, 0);
    }
}

proof fn lemma_nul_at_is_first(b: Seq<u8>, i: int)
    requires
        0 <= i <= b.len(),
    ensures
        i <= nul_at(b, i) <= b.len(),
        nul_at(b, i) < b.len() ==> b[nul_at(b, i)] == 0,
        forall|j: int| i <= j < nul_at(b, i) ==> b[j] != 0,
    decreases b.len() - i,
{
    if i < b.len() && b[i] != 0 {
        lemma_nul_at_is_first(b, i + 1);
    }
}

} // verus!
