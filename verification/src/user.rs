//! The user and group that the sandboxed command runs as.

use crate::text::{
    chars_of, decimal, lemma_decimal_digits, lemma_u32_of_decimal, parse_u32, push_decimal, u32_of,
    NumberFault,
};
use vstd::prelude::*;
use vstd::slice::slice_subrange;
use vstd::string::StringExecFns;

verus! {

/// A user id.
#[derive(Debug, Clone, Copy, PartialEq, Eq, Structural)]
pub struct Uid {
    pub raw: u32,
}

/// A group id.
#[derive(Debug, Clone, Copy, PartialEq, Eq, Structural)]
pub struct Gid {
    pub raw: u32,
}

impl Uid {
    /// The user id with the number `raw`.
    pub fn from_raw(raw: u32) -> (uid: Uid)
        ensures
            uid == (Uid { raw }),
    {
        Uid { raw }
    }
}

impl Gid {
    /// The group id with the number `raw`.
    pub fn from_raw(raw: u32) -> (gid: Gid)
        ensures
            gid == (Gid { raw }),
    {
        Gid { raw }
    }
}

/// The number of a user id.
pub fn uid_raw(uid: Uid) -> (raw: u32)
    ensures
        raw == uid.raw,
{
    uid.raw
}

/// The number of a group id.
pub fn gid_raw(gid: Gid) -> (raw: u32)
    ensures
        raw == gid.raw,
{
    gid.raw
}

/// What is wrong with a user specification.
#[derive(Debug, Clone, Copy, PartialEq, Eq, Structural)]
pub enum UserSpecError {
    InvalidUid(NumberFault),
    InvalidGid(NumberFault),
}

impl UserSpecError {
    /// The message for the specification `spec`.
    pub open spec fn spec_message(self, spec: Seq<char>) -> Seq<char> {
        match self {
            UserSpecError::InvalidUid(_) => "Invalid uid in --user '"@ + spec + "'"@,
            UserSpecError::InvalidGid(_) => "Invalid gid in --user '"@ + spec + "'"@,
        }
    }

    /// Says which part of the specification `spec` is wrong.
    pub fn message(self, spec: &str) -> (text: String)
        ensures
            text@ == self.spec_message(spec@),
    {
        let mut text = match self {
            UserSpecError::InvalidUid(_) => "Invalid uid in --user '".to_owned(),
            UserSpecError::InvalidGid(_) => "Invalid gid in --user '".to_owned(),
        };
        text.append(spec);
        text.append("'");
        text
    }

    /// What keeps that part from being read as a number.
    pub fn fault(self) -> (fault: NumberFault)
        ensures
            self == UserSpecError::InvalidUid(fault) || self == UserSpecError::InvalidGid(fault),
    {
        match self {
            UserSpecError::InvalidUid(fault) => fault,
            UserSpecError::InvalidGid(fault) => fault,
        }
    }
}

/// Where the first colon stands at or behind `i`; the end of `s` where there is none.
pub open spec fn colon_at(s: Seq<char>, i: int) -> int
    decreases s.len() - i,
{
    if i >= s.len() || s[i] == ':' {
        i
    } else {
        colon_at(s, i + 1)
    }
}

/// The user and group that `s` names: `uid:gid`, or `uid` alone for a group of the same number.
pub open spec fn named_user(s: Seq<char>) -> Result<(Uid, Gid), UserSpecError> {
    let k = colon_at(s, 0);
    match u32_of(s.take(k)) {
        Err(fault) => Err(UserSpecError::InvalidUid(fault)),
        Ok(uid) => if k == s.len() {
            Ok((Uid { raw: uid }, Gid { raw: uid }))
        } else {
            match u32_of(s.skip(k + 1)) {
                Err(fault) => Err(UserSpecError::InvalidGid(fault)),
                Ok(gid) => Ok((Uid { raw: uid }, Gid { raw: gid })),
            }
        },
    }
}

/// The user and group to run as: root where that is asked for, else those that the specification
/// names, else the calling user.
pub open spec fn chosen_user(root: bool, spec: Option<Seq<char>>, caller: (Uid, Gid)) -> Result<
    (Uid, Gid),
    UserSpecError,
> {
    if root {
        Ok((Uid { raw: 0 }, Gid { raw: 0 }))
    } else {
        match spec {
            None => Ok(caller),
            Some(s) => if s.len() == 0 {
                Ok(caller)
            } else {
                named_user(s)
            },
        }
    }
}

/// The view of an optional string.
pub open spec fn opt_view(s: Option<&str>) -> Option<Seq<char>> {
    match s {
        Some(t) => Some(t@),
        None => None,
    }
}

fn parse_named_user(s: &str) -> (user: Result<(Uid, Gid), UserSpecError>)
    ensures
        user == named_user(s@),
{
    let chars = chars_of(s);
    let mut k: usize = 0;
    while k < chars.len() && chars[k] != ':'
        invariant
            k <= chars@.len(),
            colon_at(chars@, 0) == colon_at(chars@, k as int),
        decreases chars@.len() - k,
    {
        k = k + 1;
    }
    assert(chars@.take(k as int) == chars@.subrange(0, k as int));
    let uid = match parse_u32(slice_subrange(chars.as_slice(), 0, k)) {
        Ok(uid) => uid,
        Err(fault) => {
            return Err(UserSpecError::InvalidUid(fault));
        },
    };
    if k == chars.len() {
        return Ok((Uid { raw: uid }, Gid { raw: uid }));
    }
    assert(chars@.skip(k + 1) == chars@.subrange(k + 1, chars@.len() as int));
    match parse_u32(slice_subrange(chars.as_slice(), k + 1, chars.len())) {
        Ok(gid) => Ok((Uid { raw: uid }, Gid { raw: gid })),
        Err(fault) => Err(UserSpecError::InvalidGid(fault)),
    }
}

/// Parses the user specification to determine the user and group of the sandboxed command.
///
/// - With `root`, always user and group 0.
/// - Without a specification, or with an empty one, the calling user.
/// - Else the user and group that the specification names, as `uid` or `uid:gid`.
pub fn parse_user_spec(root: bool, spec: Option<&str>, caller: (Uid, Gid)) -> (user: Result<
    (Uid, Gid),
    UserSpecError,
>)
    ensures
        user == chosen_user(root, opt_view(spec), caller),
{
    if root {
        return Ok((Uid { raw: 0 }, Gid { raw: 0 }));
    }
    match spec {
        None => Ok(caller),
        Some(s) => if s.is_empty() {
            Ok(caller)
        } else {
            parse_named_user(s)
        },
    }
}

/// The number that a variable of the environment writes, or `fallback` where it writes none.
pub open spec fn number_or(value: Option<Seq<char>>, fallback: u32) -> u32 {
    match value {
        Some(s) => match u32_of(s) {
            Ok(n) => n,
            Err(_) => fallback,
        },
        None => fallback,
    }
}

fn parse_or(value: Option<&str>, fallback: u32) -> (n: u32)
    ensures
        n == number_or(opt_view(value), fallback),
{
    match value {
        Some(s) => match parse_u32(chars_of(s).as_slice()) {
            Ok(n) => n,
            Err(_) => fallback,
        },
        None => fallback,
    }
}

/// The original caller, that is the user who ran sudo.
///
/// `sudo_uid` and `sudo_gid` are the values of `SUDO_UID` and `SUDO_GID`, where these are set.
/// Each falls back to the id of the current process.
pub fn calling_user(sudo_uid: Option<&str>, sudo_gid: Option<&str>, uid: Uid, gid: Gid) -> (caller: (
    Uid,
    Gid,
))
    ensures
        caller.0.raw == number_or(opt_view(sudo_uid), uid.raw),
        caller.1.raw == number_or(opt_view(sudo_gid), gid.raw),
{
    (Uid { raw: parse_or(sudo_uid, uid.raw) }, Gid { raw: parse_or(sudo_gid, gid.raw) })
}

/// The command keeps running as root: there are no privileges to drop.
pub open spec fn stays_root(uid: Uid, gid: Gid) -> bool {
    uid.raw == 0 && gid.raw == 0
}

/// Tells whether root has to be given up before the command is executed.
pub fn drop_privileges(uid: Uid, gid: Gid) -> (b: bool)
    ensures
        b == !stays_root(uid, gid),
{
    !(uid.raw == 0 && gid.raw == 0)
}

/// The specification of a user and a group.
pub open spec fn user_text(uid: Uid, gid: Gid) -> Seq<char> {
    decimal(uid.raw as nat) + ":"@ + decimal(gid.raw as nat)
}

/// Writes the specification of a user and a group.
pub fn user_spec(uid: Uid, gid: Gid) -> (text: String)
    ensures
        text@ == user_text(uid, gid),
{
    let mut text = String::new();
    push_decimal(&mut text, uid_raw(uid) as u128);
    text.append(":");
    push_decimal(&mut text, gid_raw(gid) as u128);
    text
}

/// The groups in decimal, with commas between them.
pub open spec fn csv(groups: Seq<Gid>) -> Seq<char>
    decreases groups.len(),
{
    if groups.len() == 0 {
        Seq::empty()
    } else if groups.len() == 1 {
        decimal(groups[0].raw as nat)
    } else {
        csv(groups.drop_last()) + ","@ + decimal(groups.last().raw as nat)
    }
}

/// Writes the groups in decimal, with commas between them.
pub fn groups_to_csv(groups: &[Gid]) -> (text: String)
    ensures
        text@ == csv(groups@),
{
    let mut text = String::new();
    let mut i: usize = 0;
    assert(groups@.take(0) == Seq::<Gid>::empty());
    while i < groups.len()
        invariant
            i <= groups@.len(),
            text@ == csv(groups@.take(i as int)),
        decreases groups@.len() - i,
    {
        proof {
            assert(groups@.take(i + 1).drop_last() == groups@.take(i as int));
        }
        if i > 0 {
            text.append(",");
        }
        push_decimal(&mut text, gid_raw(groups[i]) as u128);
        i = i + 1;
    }
    assert(groups@.take(i as int) == groups@);
    text
}

proof fn lemma_colon_at(s: Seq<char>, i: int, k: int)
    requires
        0 <= i <= k <= s.len(),
        forall|j: int| i <= j < k ==> s[j] != ':',
        k < s.len() ==> s[k] == ':',
    ensures
        colon_at(s, i) == k,
    decreases k - i,
{
    if i < k {
        lemma_colon_at(s, i + 1, k);
    }
}

/// The specification of a user and a group names that user and that group.
pub proof fn lemma_named_user_text(uid: Uid, gid: Gid)
    ensures
        named_user(user_text(uid, gid)) == Ok::<(Uid, Gid), UserSpecError>((uid, gid)),
{
    let a = decimal(uid.raw as nat);
    let b = decimal(gid.raw as nat);
    let s = user_text(uid, gid);
    reveal_strlit(":");
    lemma_u32_of_decimal(uid.raw);
    lemma_u32_of_decimal(gid.raw);
    lemma_decimal_digits(uid.raw as nat);
    assert forall|j: int| 0 <= j < a.len() implies s[j] != ':' by {
        assert('0' <= a[j] <= '9');
    }
    lemma_colon_at(s, 0, a.len() as int);
    assert(s.take(a.len() as int) == a);
    assert(s.skip(a.len() as int + 1) == b);
}

/// Whoever calls with a specification of themselves runs as themselves, unless root is asked for.
pub proof fn lemma_chosen_user_text(uid: Uid, gid: Gid, caller: (Uid, Gid))
    ensures
        chosen_user(false, Some(user_text(uid, gid)), caller) == Ok::<(Uid, Gid), UserSpecError>(
            (uid, gid),
        ),
{
    reveal_strlit(":");
    lemma_named_user_text(uid, gid);
}

/// Asking for root overrides every specification.
pub proof fn lemma_root_overrides(spec: Option<Seq<char>>, caller: (Uid, Gid))
    ensures
        chosen_user(true, spec, caller) == Ok::<(Uid, Gid), UserSpecError>(
            (Uid { raw: 0 }, Gid { raw: 0 }),
        ),
{
}

/// An empty specification is as good as none.
pub proof fn lemma_empty_spec_is_none(root: bool, spec: Seq<char>, caller: (Uid, Gid))
    requires
        spec.len() == 0,
    ensures
        chosen_user(root, Some(spec), caller) == chosen_user(root, None, caller),
{
}

/// Without a group of its own, a specification names the group with the number of the user.
pub proof fn lemma_group_defaults_to_user(s: Seq<char>)
    requires
        !s.contains(':'),
    ensures
        named_user(s) matches Ok((uid, gid)) ==> gid.raw == uid.raw,
        named_user(s) is Ok == u32_of(s) is Ok,
{
    assert forall|j: int| 0 <= j < s.len() implies s[j] != ':' by {
        assert(s.contains(s[j]));
    }
    lemma_colon_at(s, 0, s.len() as int);
    assert(s.take(s.len() as int) == s);
}

} // verus!
