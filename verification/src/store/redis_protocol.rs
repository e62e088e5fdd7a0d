//! What a store on Redis sends and how it takes the answers: keys, arguments and
//! replies.

use vstd::prelude::*;
use vstd::string::StrSliceExecFns;

use crate::session::codec;
use crate::store::disk;
use crate::store::disk::{decode_session_record, StoredSession};
use crate::store::types;
use crate::store::types::{
    EntryView, RecordView, SessionRecord, StoreError, StoreErrorView, VersionedRecord,
};
use crate::text;
use crate::text::{joined_text, push_digits, text_with_number};

verus! {

/// The keys under which records are kept.
#[derive(Debug)]
pub struct RedisKeys {
    pub key_prefix: String,
}

impl RedisKeys {
    pub fn session_key(&self, cid: u64) -> (key: String)
        ensures
            key@ == self.key_prefix@ + ":session:"@ + text::decimal(cid as nat),
    {
        let start = joined_text(self.key_prefix.as_str(), ":session:");
        text_with_number(start.as_str(), cid)
    }

    pub fn expiry_index_key(&self) -> (key: String)
        ensures
            key@ == self.key_prefix@ + ":session_expiry"@,
    {
        joined_text(self.key_prefix.as_str(), ":session_expiry")
    }
}

/// How the expected version is sent: its digits, or nothing where no record is
/// expected.
pub open spec fn expected_text(expected: Option<u64>) -> Seq<char> {
    match expected {
        Some(version) => text::decimal(version as nat),
        None => Seq::empty(),
    }
}

pub fn expected_argument(expected: Option<u64>) -> (argument: String)
    ensures
        argument@ == expected_text(expected),
{
    let mut argument = String::new();
    if let Some(version) = expected {
        push_digits(&mut argument, version, 10);
    }
    assert(argument@ =~= expected_text(expected));
    argument
}

/// When a record written now expires.
pub fn expiry(now_ms: u64, ttl_ms: u64) -> (expires_at_ms: u64)
    ensures
        expires_at_ms == codec::saturating_sum(now_ms, ttl_ms),
{
    now_ms.saturating_add(ttl_ms)
}

/// A field of a reply as it was converted, or why it could not be.
pub open spec fn field_error(name: Seq<char>, why: Seq<char>) -> StoreErrorView {
    StoreErrorView::Backend("invalid redis "@ + name + ": "@ + why)
}

fn bad_field(name: &str, why: &String) -> (error: StoreError)
    ensures
        error@ == field_error(name@, why@),
{
    let start = joined_text("invalid redis ", name);
    let middle = joined_text(start.as_str(), ": ");
    StoreError::Backend(joined_text(middle.as_str(), why.as_str()))
}

/// The fields of a reply to a load, each as it was converted.
#[derive(Debug, PartialEq, Eq)]
pub struct LoadReply {
    pub version: Result<u64, String>,
    pub expires_at_ms: Result<u64, String>,
    pub payload: Result<Result<StoredSession, String>, String>,
}

/// What a reply to a load means: the first field that failed, or the record.
pub open spec fn load_meaning(reply: Option<LoadReply>) -> Result<
    Option<EntryView>,
    StoreErrorView,
> {
    match reply {
        None => Ok(None),
        Some(fields) => match (fields.version, fields.expires_at_ms, fields.payload) {
            (Err(e), _, _) => Err(field_error("version"@, e@)),
            (_, Err(e), _) => Err(field_error("expiry"@, e@)),
            (_, _, Err(e)) => Err(field_error("payload"@, e@)),
            (Ok(version), Ok(expires_at_ms), Ok(payload)) => match disk::decoded(
                disk::payload_view(payload),
            ) {
                Ok(record) => Ok(Some(EntryView { version, record, expires_at_ms })),
                Err(e) => Err(e),
            },
        },
    }
}

/// Takes the reply to a load; `None` is a reply without rows.
pub fn loaded(reply: Option<LoadReply>) -> (found: Result<Option<VersionedRecord>, StoreError>)
    ensures
        types::loaded_view(found) == load_meaning(reply),
{
    match reply {
        None => Ok(None),
        Some(fields) => {
            let version: u64 = match fields.version {
                Ok(version) => version,
                Err(e) => {
                    return Err(bad_field("version", &e));
                },
            };
            let expires_at_ms: u64 = match fields.expires_at_ms {
                Ok(expires_at_ms) => expires_at_ms,
                Err(e) => {
                    return Err(bad_field("expiry", &e));
                },
            };
            let payload = match fields.payload {
                Ok(payload) => payload,
                Err(e) => {
                    return Err(bad_field("payload", &e));
                },
            };
            match decode_session_record(payload) {
                Ok(record) => Ok(Some(VersionedRecord { version, record, expires_at_ms })),
                Err(e) => Err(e),
            }
        },
    }
}

/// A version as it comes in a reply, as an unsigned number.
pub open spec fn reply_version(n: i64) -> u64 {
    if n >= 0 {
        n as u64
    } else {
        (n + 0x1_0000_0000_0000_0000) as u64
    }
}

/// What a reply to a write with an expected version means.
pub open spec fn swap_meaning(
    reply: Seq<i64>,
    expected: Option<u64>,
    record: RecordView,
    expires_at_ms: u64,
) -> Result<EntryView, StoreErrorView> {
    if reply.len() != 2 {
        Err(StoreErrorView::Backend("invalid CAS response from redis script"@))
    } else if reply[0] == 1 {
        Ok(EntryView { version: reply_version(reply[1]), record, expires_at_ms })
    } else {
        Err(
            StoreErrorView::CasConflict {
                expected,
                actual: if reply[1] < 0 {
                    None
                } else {
                    Some(reply[1] as u64)
                },
            },
        )
    }
}

/// Takes the reply to a write with an expected version.
pub fn swapped(
    reply: &[i64],
    expected_version: Option<u64>,
    new_record: SessionRecord,
    expires_at_ms: u64,
) -> (outcome: Result<VersionedRecord, StoreError>)
    ensures
        types::saved_view(outcome) == swap_meaning(
            reply@,
            expected_version,
            new_record@,
            expires_at_ms,
        ),
{
    if reply.len() != 2 {
        return Err(StoreError::Backend("invalid CAS response from redis script".to_string()));
    }
    let version: i64 = reply[1];
    if reply[0] == 1 {
        let unsigned: u64 = if version >= 0 {
            version as u64
        } else {
            (version as i128 + 0x1_0000_0000_0000_0000) as u64
        };
        return Ok(VersionedRecord { version: unsigned, record: new_record, expires_at_ms });
    }
    let actual: Option<u64> = if version < 0 {
        None
    } else {
        Some(version as u64)
    };
    Err(StoreError::CasConflict { expected: expected_version, actual })
}

/// The value of a decimal digit.
pub open spec fn digit_of(c: char) -> Option<nat> {
    if '0' <= c && c <= '9' {
        Some((c as nat - '0' as nat) as nat)
    } else {
        None
    }
}

/// The number that some digits write, if they are digits and at least one.
pub open spec fn number_of(digits: Seq<char>) -> Option<nat>
    decreases digits.len(),
{
    if digits.len() == 0 {
        None
    } else {
        match digit_of(digits.last()) {
            None => None,
            Some(last) => if digits.len() == 1 {
                Some(last)
            } else {
                match number_of(digits.drop_last()) {
                    Some(start) => Some(10 * start + last),
                    None => None,
                }
            },
        }
    }
}

/// The session that a member of the expiry index names: a number of sixty-four
/// bits in decimal, behind a plus sign or not.
pub open spec fn member_session(member: Seq<char>) -> Option<u64> {
    let digits = if member.len() > 0 && member[0] == '+' {
        member.skip(1)
    } else {
        member
    };
    match number_of(digits) {
        Some(n) => if n <= u64::MAX {
            Some(n as u64)
        } else {
            None
        },
        None => None,
    }
}

/// Reads the session that a member of the expiry index names.
pub fn parse_member(member: &str) -> (cid: Option<u64>)
    ensures
        cid == member_session(member@),
{
    let count: usize = member.unicode_len();
    let mut i: usize = 0;
    if count > 0 && member.get_char(0) == '+' {
        i = 1;
    }
    let ghost digits = member@.skip(i as int);
    assert(i == 0 ==> digits =~= member@);
    if i == count {
        return None;
    }
    let from: usize = i;
    let mut value: u64 = 0;
    while i < count
        invariant
            from <= i <= count,
            from < count,
            count == member@.len(),
            digits == member@.skip(from as int),
            member_session(member@) == match number_of(digits) {
                Some(n) => if n <= u64::MAX {
                    Some(n as u64)
                } else {
                    None
                },
                None => None,
            },
            i == from ==> value == 0,
            i > from ==> number_of(digits.take(i - from)) == Some(value as nat),
        decreases count - i,
    {
        let c: char = member.get_char(i);
        let ghost shorter = digits.take(i - from);
        let ghost longer = digits.take(i - from + 1);
        assert(longer.drop_last() =~= shorter);
        assert(longer.last() == c);
        if !('0' <= c && c <= '9') {
            proof {
                assert(number_of(longer) is None);
                lemma_number_needs_digits(digits, i - from + 1);
            }
            return None;
        }
        let digit: u64 = c as u64 - '0' as u64;
        let wide: u128 = value as u128 * 10 + digit as u128;
        assert(number_of(longer) == Some(wide as nat)) by {
            if i == from {
                assert(longer.len() == 1);
            }
        }
        if wide > u64::MAX as u128 {
            proof {
                lemma_number_grows(digits, i - from + 1);
            }
            return None;
        }
        value = wide as u64;
        i = i + 1;
    }
    assert(digits.take(count - from) =~= digits);
    Some(value)
}

/// What starts with something that is no number is none.
proof fn lemma_number_needs_digits(digits: Seq<char>, count: int)
    requires
        1 <= count <= digits.len(),
        number_of(digits.take(count)) is None,
    ensures
        number_of(digits) is None,
    decreases digits.len() - count,
{
    if count == digits.len() {
        assert(digits.take(count) =~= digits);
    } else {
        assert(digits.take(count + 1).drop_last() =~= digits.take(count));
        lemma_number_needs_digits(digits, count + 1);
    }
}

/// More digits make no smaller number.
proof fn lemma_number_grows(digits: Seq<char>, count: int)
    requires
        1 <= count <= digits.len(),
        number_of(digits.take(count)) is Some,
    ensures
        number_of(digits) is Some ==> number_of(digits)->0 >= number_of(digits.take(count))->0,
    decreases digits.len() - count,
{
    if count == digits.len() {
        assert(digits.take(count) =~= digits);
    } else {
        assert(digits.take(count + 1).drop_last() =~= digits.take(count));
        if number_of(digits.take(count + 1)) is Some {
            lemma_number_grows(digits, count + 1);
        } else {
            lemma_number_needs_digits(digits, count + 1);
        }
    }
}

/// The sessions that a clean-up removed: of the members that name a session,
/// those for which the script answered one.
pub open spec fn removed_sessions(answers: Seq<(u64, i32)>) -> Seq<u64>
    decreases answers.len(),
{
    if answers.len() == 0 {
        Seq::empty()
    } else {
        let before = removed_sessions(answers.drop_last());
        if answers.last().1 == 1 {
            before.push(answers.last().0)
        } else {
            before
        }
    }
}

/// The sessions that members name, in their order; other members are passed over.
pub open spec fn member_sessions(members: Seq<String>) -> Seq<u64>
    decreases members.len(),
{
    if members.len() == 0 {
        Seq::empty()
    } else {
        let before = member_sessions(members.drop_last());
        match member_session(members.last()@) {
            Some(cid) => before.push(cid),
            None => before,
        }
    }
}

/// The sessions to clean up, with the place of the member that names each.
pub fn cleanup_targets(members: &Vec<String>) -> (targets: Vec<(usize, u64)>)
    ensures
        targets@.map_values(|t: (usize, u64)| t.1) == member_sessions(members@),
        forall|i: int|
            0 <= i < targets@.len() ==> (#[trigger] targets@[i]).0 < members@.len()
                && member_session(members@[targets@[i].0 as int]@) == Some(targets@[i].1),
{
    let mut targets: Vec<(usize, u64)> = Vec::new();
    let mut i: usize = 0;
    assert(targets@.map_values(|t: (usize, u64)| t.1) =~= member_sessions(members@.take(0)));
    while i < members.len()
        invariant
            i <= members@.len(),
            targets@.map_values(|t: (usize, u64)| t.1) == member_sessions(
                members@.take(i as int),
            ),
            forall|k: int|
                0 <= k < targets@.len() ==> (#[trigger] targets@[k]).0 < members@.len()
                    && member_session(members@[targets@[k].0 as int]@) == Some(targets@[k].1),
        decreases members@.len() - i,
    {
        let ghost before = targets@;
        assert(members@.take(i + 1).drop_last() =~= members@.take(i as int));
        assert(members@.take(i + 1).last() == members@[i as int]);
        if let Some(cid) = parse_member(members[i].as_str()) {
            targets.push((i, cid));
            assert(targets@.map_values(|t: (usize, u64)| t.1) =~= before.map_values(
                |t: (usize, u64)| t.1,
            ).push(cid));
        }
        i = i + 1;
    }
    assert(members@.take(i as int) =~= members@);
    targets
}

/// The sessions that a clean-up removed, from the script's answer for each.
pub fn removed(answers: &Vec<(u64, i32)>) -> (cids: Vec<u64>)
    ensures
        cids@ == removed_sessions(answers@),
{
    let mut cids: Vec<u64> = Vec::new();
    let mut i: usize = 0;
    while i < answers.len()
        invariant
            i <= answers@.len(),
            cids@ == removed_sessions(answers@.take(i as int)),
        decreases answers@.len() - i,
    {
        assert(answers@.take(i + 1).drop_last() =~= answers@.take(i as int));
        if answers[i].1 == 1 {
            cids.push(answers[i].0);
        }
        i = i + 1;
    }
    assert(answers@.take(i as int) =~= answers@);
    cids
}

/// The digits of a session name it.
pub proof fn law_member_names_its_session(cid: u64)
    ensures
        member_session(text::decimal(cid as nat)) == Some(cid),
{
    lemma_decimal_number(cid as nat);
}

proof fn lemma_decimal_number(n: nat)
    ensures
        number_of(text::decimal(n)) == Some(n),
        text::decimal(n).len() > 0,
        text::decimal(n)[0] != '+',
    decreases n,
{
    if n >= 10 {
        lemma_decimal_number(n / 10);
        assert(text::decimal(n).drop_last() =~= text::decimal(n / 10));
    }
}

} // verus!
