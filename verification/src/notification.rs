//! Reading the task name out of a notification message.
use vstd::prelude::*;
use vstd::string::StringSliceAdditionalSpecFns;
use vstd::utf8::valid_utf8;

use crate::text::{
    find_bytes, find_from, lemma_ascii_delimited_valid, lemma_find_from, lemma_find_from_first,
    occurs_at, utf8_text,
};

verus! {

/// The most bytes a task name may take: the capacity of the strings the
/// display is sent.
pub const TASK_NAME_CAPACITY: usize = 256;

#[verifier::external_type_specification]
#[verifier::external_body]
pub struct ExHeaplessString<const N: usize>(heapless::String<N>);

/// The bytes that a `heapless::String<256>` holds.
pub uninterp spec fn task_name_bytes(s: heapless::String<256>) -> Seq<u8>;

/// `heapless::String::<256>::try_from(&str)`: its source copies the text's bytes
/// into an empty string of capacity 256 and fails, leaving nothing, when there
/// are more than 256 of them.
#[verifier::external_body]
fn bounded_task_name(s: &str) -> (r: Option<heapless::String<256>>)
    ensures
        r is Some <==> s.spec_bytes().len() <= 256,
        r matches Some(h) ==> task_name_bytes(h) == s.spec_bytes(),
{
    heapless::String::<256>::try_from(s).ok()
}

/// The bytes of the key that introduces the task name in a notification: `"task_name":"`.
pub open spec fn task_name_key() -> Seq<u8> {
    seq![34u8, 116, 97, 115, 107, 95, 110, 97, 109, 101, 34, 58, 34]
}

/// The closing quote of the task name.
pub open spec fn quote() -> Seq<u8> {
    seq![34u8]
}

/// The bytes of the task name in a notification: the text that follows the
/// first `"task_name":"` up to the next `"`. There is none when the message is
/// not UTF-8, lacks the key, or the value is not closed.
pub open spec fn task_name_text(payload: Seq<u8>) -> Option<Seq<u8>> {
    if !valid_utf8(payload) {
        None
    } else {
        match find_from(payload, task_name_key(), 0) {
            None => None,
            Some(start) => {
                let value_start = start + task_name_key().len();
                match find_from(payload, quote(), value_start) {
                    None => None,
                    Some(end) => Some(payload.subrange(value_start, end)),
                }
            },
        }
    }
}

/// The task name that a notification asks the display to show: the name
/// text, when it fits in the display's strings.
pub open spec fn notified_task_name(payload: Seq<u8>) -> Option<Seq<u8>> {
    match task_name_text(payload) {
        Some(name) => if name.len() <= TASK_NAME_CAPACITY {
            Some(name)
        } else {
            None
        },
        None => None,
    }
}

/// Extracts the task name from a notification payload such as
/// `{"task_name":"Read"}`.
pub fn parse_notification(payload: &[u8]) -> (r: Option<heapless::String<256>>)
    ensures
        r is Some <==> notified_task_name(payload@) is Some,
        r matches Some(h) ==> notified_task_name(payload@) == Some(task_name_bytes(h)),
{
    if utf8_text(payload).is_none() {
        return None;
    }
    let key: [u8; 13] = [34u8, 116, 97, 115, 107, 95, 110, 97, 109, 101, 34, 58, 34];
    let quote_mark: [u8; 1] = [34u8];
    assert(key@ =~= task_name_key());
    assert(quote_mark@ =~= quote());
    let start = match find_bytes(payload, key.as_slice(), 0) {
        Some(start) => start,
        None => return None,
    };
    proof {
        lemma_find_from(payload@, task_name_key(), 0);
        assert(task_name_key().len() == 13);
        assert(start + 13 <= payload@.len());
        assert(payload@.len() == payload.len());
    }
    let value_start: usize = start + 13;
    let end = match find_bytes(payload, quote_mark.as_slice(), value_start) {
        Some(end) => end,
        None => return None,
    };
    proof {
        lemma_find_from(payload@, quote(), value_start as int);
        assert(payload@[value_start - 1] == payload@.subrange(start as int, value_start as int)[12]);
        assert(payload@[end as int] == payload@.subrange(end as int, end + 1)[0]);
        lemma_ascii_delimited_valid(payload@, value_start as int, end as int);
    }
    let name_bytes = vstd::slice::slice_subrange(payload, value_start, end);
    match utf8_text(name_bytes) {
        Some(name) => bounded_task_name(name),
        None => None,
    }
}

/// A notification that starts with the key, then a name without quotes and
/// the closing quote, names that task: the display is sent that name when it
/// fits in `TASK_NAME_CAPACITY` bytes.
pub proof fn law_notification_names_task(name: Seq<u8>, rest: Seq<u8>)
    requires
        valid_utf8(task_name_key() + name + quote() + rest),
        forall|i: int| 0 <= i < name.len() ==> name[i] != 34u8,
    ensures
        task_name_text(task_name_key() + name + quote() + rest) == Some(name),
        notified_task_name(task_name_key() + name + quote() + rest) == if name.len()
            <= TASK_NAME_CAPACITY {
            Some(name)
        } else {
            None
        },
{
    let payload = task_name_key() + name + quote() + rest;
    let start = task_name_key().len() as int;
    let end = start + name.len();
    assert(payload.subrange(0, start) =~= task_name_key());
    lemma_find_from_first(payload, task_name_key(), 0, 0);
    assert(payload.subrange(end, end + 1) =~= quote());
    assert forall|j: int| start <= j < end implies !occurs_at(payload, quote(), j) by {
        assert(payload[j] == name[j - start]);
        assert(payload.subrange(j, j + 1)[0] == payload[j]);
    }
    lemma_find_from_first(payload, quote(), start, end);
    assert(payload.subrange(start, end) =~= name);
}

/// The name is the text after the first exact `"task_name":"` (13 bytes) up
/// to the next `"`: whatever comes before that key (other fields, including
/// ones whose names end in `name`, such as `"name":"X"`) does not matter,
/// and the display is sent the name when it fits in 256 bytes.
pub proof fn law_task_name_after_first_key(payload: Seq<u8>, start: int, name: Seq<u8>)
    requires
        valid_utf8(payload),
        0 <= start,
        start + 13 + name.len() < payload.len(),
        payload.subrange(start, start + 13) == seq![
            34u8,
            116,
            97,
            115,
            107,
            95,
            110,
            97,
            109,
            101,
            34,
            58,
            34,
        ],
        forall|j: int|
            0 <= j < start ==> #[trigger] payload.subrange(j, j + 13) != seq![
                34u8,
                116,
                97,
                115,
                107,
                95,
                110,
                97,
                109,
                101,
                34,
                58,
                34,
            ],
        payload.subrange(start + 13, start + 13 + name.len()) == name,
        forall|i: int| 0 <= i < name.len() ==> name[i] != 34u8,
        payload[start + 13 + name.len()] == 34u8,
    ensures
        task_name_text(payload) == Some(name),
        notified_task_name(payload) == if name.len() <= 256 {
            Some(name)
        } else {
            None
        },
{
    assert(seq![34u8, 116, 97, 115, 107, 95, 110, 97, 109, 101, 34, 58, 34] =~= task_name_key());
    assert(quote() =~= seq![34u8]);
    let value_start = start + 13;
    let end = value_start + name.len();
    assert forall|j: int| 0 <= j < start implies !occurs_at(payload, task_name_key(), j) by {
        if j + 13 <= payload.len() {
            assert(payload.subrange(j, j + 13) != task_name_key());
        }
    }
    lemma_find_from_first(payload, task_name_key(), 0, start);
    assert(payload.subrange(end, end + 1) =~= quote());
    assert forall|j: int| value_start <= j < end implies !occurs_at(payload, quote(), j) by {
        assert(payload[j] == payload.subrange(value_start, end)[j - value_start]);
        assert(payload.subrange(j, j + 1)[0] == payload[j]);
    }
    lemma_find_from_first(payload, quote(), value_start, end);
}

} // verus!
