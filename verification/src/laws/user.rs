//! Who a command runs as.

use crate::text::{decimal, lemma_u32_of_decimal, u32_of, NumberFault};
use crate::user::{
    calling_user, chosen_user, colon_at, csv, named_user, number_or, stays_root, user_text, Gid, Uid,
    UserSpecError,
};
use vstd::prelude::*;

verus! {

proof fn lemma_first_colon(s: Seq<char>, i: int, k: int)
    requires
        0 <= i <= k <= s.len(),
        forall|j: int| 0 <= j < k ==> s[j] != ':',
        k < s.len() ==> s[k] == ':',
    ensures
        colon_at(s, i) == k,
    decreases k - i,
{
    if i < k {
        lemma_first_colon(s, i + 1, k);
    }
}

/// A specification without a colon names one number for the user and the group.
pub proof fn lemma_one_number(s: Seq<char>)
    requires
        !s.contains(':'),
    ensures
        match u32_of(s) {
            Ok(n) => named_user(s) == Ok::<(Uid, Gid), UserSpecError>(
                (Uid { raw: n }, Gid { raw: n }),
            ),
            Err(fault) => named_user(s) == Err::<(Uid, Gid), UserSpecError>(
                UserSpecError::InvalidUid(fault),
            ),
        },
{
    assert forall|j: int| 0 <= j < s.len() implies s[j] != ':' by {
        assert(s.contains(s[j]));
    }
    lemma_first_colon(s, 0, s.len() as int);
    assert(s.take(s.len() as int) == s);
}

/// A specification with a colon names the user before the first colon and the group behind it; of
/// two faults that of the user counts.
pub proof fn lemma_two_numbers(a: Seq<char>, b: Seq<char>)
    requires
        !a.contains(':'),
    ensures
        match (u32_of(a), u32_of(b)) {
            (Ok(n), Ok(m)) => named_user(a + seq![':'] + b) == Ok::<(Uid, Gid), UserSpecError>(
                (Uid { raw: n }, Gid { raw: m }),
            ),
            (Ok(_), Err(fault)) => named_user(a + seq![':'] + b) == Err::<
                (Uid, Gid),
                UserSpecError,
            >(UserSpecError::InvalidGid(fault)),
            (Err(fault), _) => named_user(a + seq![':'] + b) == Err::<(Uid, Gid), UserSpecError>(
                UserSpecError::InvalidUid(fault),
            ),
        },
{
    let s = a + seq![':'] + b;
    let k = a.len() as int;
    assert forall|j: int| 0 <= j < k implies s[j] != ':' by {
        assert(s[j] == a[j]);
        assert(a.contains(a[j]));
    }
    lemma_first_colon(s, 0, k);
    assert(s.take(k) == a);
    assert(s.skip(k + 1) == b);
}

/// The user that is chosen: root on demand, else the one that is named, else the caller.
pub proof fn lemma_choice_of_user(root: bool, spec: Seq<char>, caller: (Uid, Gid))
    ensures
        chosen_user(true, Some(spec), caller) == Ok::<(Uid, Gid), UserSpecError>(
            (Uid { raw: 0 }, Gid { raw: 0 }),
        ),
        chosen_user(true, None, caller) == Ok::<(Uid, Gid), UserSpecError>(
            (Uid { raw: 0 }, Gid { raw: 0 }),
        ),
        chosen_user(false, None, caller) == Ok::<(Uid, Gid), UserSpecError>(caller),
        spec.len() == 0 ==> chosen_user(false, Some(spec), caller) == Ok::<
            (Uid, Gid),
            UserSpecError,
        >(caller),
        spec.len() > 0 ==> chosen_user(false, Some(spec), caller) == named_user(spec),
{
}

/// A variable of the environment counts exactly where it is set and writes a number.
pub proof fn lemma_environment(value: Seq<char>, n: u32, fallback: u32)
    ensures
        number_or(None, fallback) == fallback,
        number_or(Some(decimal(n as nat)), fallback) == n,
        u32_of(value) is Err ==> number_or(Some(value), fallback) == fallback,
        u32_of(value) matches Ok(m) ==> number_or(Some(value), fallback) == m,
{
    lemma_u32_of_decimal(n);
}

/// Root is kept exactly where both the user and the group are root's.
pub proof fn lemma_root_is_kept(uid: Uid, gid: Gid)
    ensures
        stays_root(uid, gid) == (uid.raw == 0 && gid.raw == 0),
{
}

/// The specification of a user and a group is the one number, a colon and the other.
pub proof fn lemma_spec_text(uid: Uid, gid: Gid)
    ensures
        user_text(uid, gid) == decimal(uid.raw as nat) + seq![':'] + decimal(gid.raw as nat),
{
    reveal_strlit(":");
    assert(":"@ =~= seq![':']);
}

/// Groups stand in their order, with a comma between each two.
pub proof fn lemma_group_list(groups: Seq<Gid>, gid: Gid)
    ensures
        csv(Seq::empty()) == Seq::<char>::empty(),
        csv(seq![gid]) == decimal(gid.raw as nat),
        groups.len() > 0 ==> csv(groups.push(gid)) == csv(groups) + seq![','] + decimal(
            gid.raw as nat,
        ),
{
    reveal_strlit(",");
    assert(","@ =~= seq![',']);
    assert(groups.push(gid).drop_last() == groups);
}

/// The caller is who ran sudo, where sudo says so with numbers, and else the process itself; the
/// user and the group count apart.
pub proof fn lemma_caller(
    sudo_uid: Option<&str>,
    sudo_gid: Option<&str>,
    uid: Uid,
    gid: Gid,
    caller: (Uid, Gid),
)
    requires
        call_ensures(calling_user, (sudo_uid, sudo_gid, uid, gid), caller),
    ensures
        match sudo_uid {
            Some(s) => caller.0.raw == (match u32_of(s@) {
                Ok(n) => n,
                Err(_) => uid.raw,
            }),
            None => caller.0 == uid,
        },
        match sudo_gid {
            Some(s) => caller.1.raw == (match u32_of(s@) {
                Ok(n) => n,
                Err(_) => gid.raw,
            }),
            None => caller.1 == gid,
        },
{
}

/// The message for a specification says which part of it is wrong.
pub proof fn lemma_messages(fault: NumberFault, spec: Seq<char>)
    ensures
        UserSpecError::InvalidUid(fault).spec_message(spec) == "Invalid uid in --user '"@ + spec
            + "'"@,
        UserSpecError::InvalidGid(fault).spec_message(spec) == "Invalid gid in --user '"@ + spec
            + "'"@,
{
}

} // verus!
