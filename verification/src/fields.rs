//! Reading named fields of JSON objects: strings, numbers and time ranges.

use vstd::prelude::*;
use crate::json::{Json, member, member_of, object_members};

verus! {

/// The views of a list of keys.
pub open spec fn key_views(keys: Seq<&str>) -> Seq<Seq<char>> {
    keys.map_values(|k: &str| k@)
}

/// The first of `keys` whose value in `entries` is a string, with that string.
pub open spec fn first_string(entries: Seq<(String, Json)>, keys: Seq<Seq<char>>) -> Option<Seq<char>>
    decreases keys.len(),
{
    if keys.len() == 0 {
        None
    } else {
        match member(entries, keys[0]) {
            Some(Json::String(s)) => Some(s@),
            _ => first_string(entries, keys.drop_first()),
        }
    }
}

/// The string value of the first of `keys` that holds a string.
pub fn string_field(object: &Vec<(String, Json)>, keys: &[&str]) -> (res: Option<String>)
    ensures
        match res {
            Some(s) => first_string(object@, key_views(keys@)) == Some(s@),
            None => first_string(object@, key_views(keys@)) is None,
        },
{
    let n = keys.len();
    let mut i: usize = 0;
    assert(key_views(keys@).skip(0) =~= key_views(keys@));
    while i < n
        invariant
            i <= n,
            n == keys@.len(),
            first_string(object@, key_views(keys@)) == first_string(
                object@,
                key_views(keys@).skip(i as int),
            ),
        decreases n - i,
    {
        assert(key_views(keys@).skip(i as int).drop_first() =~= key_views(keys@).skip(i + 1));
        if let Some(Json::String(s)) = member_of(object, keys[i]) {
            return Some(s.clone());
        }
        i = i + 1;
    }
    None
}


/// What `Value::as_u64`, falling back to `Value::as_f64` cut to `u64`, gives for a value.
pub open spec fn number_value(value: Json) -> Option<u64> {
    match value {
        Json::Number(n) => match n.as_u64 {
            Some(u) => Some(u),
            None => n.as_f64_floor,
        },
        _ => None,
    }
}

/// The number held by the first of `keys` whose value in `entries` is a number.
pub open spec fn first_number(entries: Seq<(String, Json)>, keys: Seq<Seq<char>>) -> Option<u64>
    decreases keys.len(),
{
    if keys.len() == 0 {
        None
    } else {
        match member(entries, keys[0]) {
            Some(v) => match number_value(v) {
                Some(n) => Some(n),
                None => first_number(entries, keys.drop_first()),
            },
            None => first_number(entries, keys.drop_first()),
        }
    }
}

fn number_of(value: &Json) -> (res: Option<u64>)
    ensures
        res == number_value(*value),
{
    match value {
        Json::Number(n) => match n.as_u64 {
            Some(u) => Some(u),
            None => n.as_f64_floor,
        },
        _ => None,
    }
}

/// The numeric value of the first of `keys` that holds a number.
pub fn numeric_field(object: &Vec<(String, Json)>, keys: &[&str]) -> (res: Option<u64>)
    ensures
        res == first_number(object@, key_views(keys@)),
{
    let n = keys.len();
    let mut i: usize = 0;
    assert(key_views(keys@).skip(0) =~= key_views(keys@));
    while i < n
        invariant
            i <= n,
            n == keys@.len(),
            first_number(object@, key_views(keys@)) == first_number(
                object@,
                key_views(keys@).skip(i as int),
            ),
        decreases n - i,
    {
        assert(key_views(keys@).skip(i as int).drop_first() =~= key_views(keys@).skip(i + 1));
        if let Some(v) = member_of(object, keys[i]) {
            if let Some(number) = number_of(v) {
                return Some(number);
            }
        }
        i = i + 1;
    }
    None
}

/// Keys under which a segment or time range gives its start.
pub open spec fn start_keys() -> Seq<Seq<char>> {
    seq!["start"@, "start_time"@, "startTime"@]
}

/// Keys under which a segment or time range gives its duration.
pub open spec fn duration_keys() -> Seq<Seq<char>> {
    seq!["duration"@]
}

/// Keys under which a segment gives its end.
pub open spec fn end_keys() -> Seq<Seq<char>> {
    seq!["end"@, "end_time"@, "endTime"@]
}

/// The time range object of a segment: `target_timerange`, else `timerange`,
/// else `source_timerange`, when one of them is present.
pub open spec fn time_source(segment: Seq<(String, Json)>) -> Option<Json> {
    match member(segment, "target_timerange"@) {
        Some(v) => Some(v),
        None => match member(segment, "timerange"@) {
            Some(v) => Some(v),
            None => member(segment, "source_timerange"@),
        },
    }
}

/// The start and duration of a segment. When the first present time range
/// is an object, both are read from it; otherwise from the segment itself,
/// the duration falling back to the end minus the start (0 when the end is
/// earlier).
pub open spec fn segment_timing(segment: Seq<(String, Json)>) -> Option<(u64, u64)> {
    match object_members(time_source(segment)) {
        Some(range) => match (first_number(range, start_keys()), first_number(range, duration_keys())) {
            (Some(start), Some(duration)) => Some((start, duration)),
            _ => None,
        },
        None => match first_number(segment, start_keys()) {
            None => None,
            Some(start) => match first_number(segment, duration_keys()) {
                Some(duration) => Some((start, duration)),
                None => match first_number(segment, end_keys()) {
                    Some(end) => Some((start, if end >= start { (end - start) as u64 } else { 0 })),
                    None => None,
                },
            },
        },
    }
}

/// The number held under `key` in an object, read as `number_value` does.
pub open spec fn number_at(object: Seq<(String, Json)>, key: Seq<char>) -> Option<u64> {
    match member(object, key) {
        Some(v) => number_value(v),
        None => None,
    }
}

/// The start and duration held under `start` and `duration` by a time range
/// object, when it holds both.
pub open spec fn range_start_duration(range: Option<Json>) -> Option<(u64, u64)> {
    match range {
        Some(Json::Object(r)) => match (number_at(r@, "start"@), number_at(r@, "duration"@)) {
            (Some(start), Some(duration)) => Some((start, duration)),
            _ => None,
        },
        _ => None,
    }
}

/// No time range of the segment is read: the first of `target_timerange`,
/// `timerange`, `source_timerange` that is present (if any) is not an object.
pub open spec fn no_range_object(segment: Seq<(String, Json)>) -> bool {
    match member(segment, "target_timerange"@) {
        Some(v) => !(v is Object),
        None => match member(segment, "timerange"@) {
            Some(v) => !(v is Object),
            None => match member(segment, "source_timerange"@) {
                Some(v) => !(v is Object),
                None => true,
            },
        },
    }
}

/// Law: what a JSON number reads as: its `u64` value when it has one, else
/// its floating-point value cut to `u64`; other values read as no number.
pub proof fn lemma_number_value_meaning(value: Json)
    ensures
        value matches Json::Number(n) ==> (n.as_u64 matches Some(u) ==> number_value(value) == Some(
            u,
        )),
        value matches Json::Number(n) ==> (n.as_u64 is None ==> number_value(value)
            == n.as_f64_floor),
        !(value is Number) ==> number_value(value) is None,
{
}

proof fn lemma_first_number_head(object: Seq<(String, Json)>, keys: Seq<Seq<char>>)
    requires
        keys.len() > 0,
        number_at(object, keys[0]) is Some,
    ensures
        first_number(object, keys) == number_at(object, keys[0]),
{
}

/// Law: a segment's timing is read from `target_timerange` when that is an
/// object with a numeric `start` and `duration`, whatever other ranges the
/// segment holds; failing a `target_timerange`, from `timerange`; failing
/// both, from `source_timerange`.
pub proof fn lemma_timing_range_priority(segment: Seq<(String, Json)>)
    ensures
        range_start_duration(member(segment, "target_timerange"@)) matches Some(t) ==> segment_timing(
            segment,
        ) == Some(t),
        member(segment, "target_timerange"@) is None ==> (range_start_duration(
            member(segment, "timerange"@),
        ) matches Some(t) ==> segment_timing(segment) == Some(t)),
        member(segment, "target_timerange"@) is None && member(segment, "timerange"@) is None ==> (
        range_start_duration(member(segment, "source_timerange"@)) matches Some(t)
            ==> segment_timing(segment) == Some(t)),
{
    let src = time_source(segment);
    if let Some(Json::Object(r)) = src {
        if let (Some(st), Some(du)) = (number_at(r@, "start"@), number_at(r@, "duration"@)) {
            lemma_first_number_head(r@, start_keys());
            lemma_first_number_head(r@, duration_keys());
        }
    }
}

/// Law: when no time range object is read, a segment's own `start` and
/// `duration` give its timing; without a `duration` (under any of its names),
/// its `end` gives the duration as end minus start, or 0 when the end is
/// earlier.
pub proof fn lemma_timing_from_segment(segment: Seq<(String, Json)>)
    requires
        no_range_object(segment),
    ensures
        number_at(segment, "start"@) matches Some(s) ==> (number_at(segment, "duration"@) matches Some(
            d,
        ) ==> segment_timing(segment) == Some((s, d))),
        number_at(segment, "start"@) matches Some(s) ==> (number_at(segment, "duration"@) is None
            ==> (number_at(segment, "end"@) matches Some(e) ==> segment_timing(segment) == Some(
            (s, if e >= s {
                (e - s) as u64
            } else {
                0
            }),
        ))),
{
    assert(object_members(time_source(segment)) is None);
    if let Some(st) = number_at(segment, "start"@) {
        lemma_first_number_head(segment, start_keys());
        if let Some(du) = number_at(segment, "duration"@) {
            lemma_first_number_head(segment, duration_keys());
        } else {
            assert(first_number(segment, duration_keys().drop_first()) is None);
            if let Some(e) = number_at(segment, "end"@) {
                lemma_first_number_head(segment, end_keys());
            }
        }
    }
}

/// Reads the start and duration of a segment.
pub fn timerange(segment: &Vec<(String, Json)>) -> (res: Option<(u64, u64)>)
    ensures
        res == segment_timing(segment@),
        range_start_duration(member(segment@, "target_timerange"@)) matches Some(t) ==> res == Some(
            t,
        ),
        no_range_object(segment@) ==> (number_at(segment@, "start"@) matches Some(s) ==> (number_at(
            segment@,
            "duration"@,
        ) matches Some(d) ==> res == Some((s, d)))),
{
    proof {
        lemma_timing_range_priority(segment@);
        if no_range_object(segment@) {
            lemma_timing_from_segment(segment@);
        }
    }
    let start_names = ["start", "start_time", "startTime"];
    let duration_names = ["duration"];
    let end_names = ["end", "end_time", "endTime"];
    assert(key_views(start_names@) =~= start_keys());
    assert(key_views(duration_names@) =~= duration_keys());
    assert(key_views(end_names@) =~= end_keys());
    let mut source = member_of(segment, "target_timerange");
    if source.is_none() {
        source = member_of(segment, "timerange");
    }
    if source.is_none() {
        source = member_of(segment, "source_timerange");
    }
    if let Some(Json::Object(range)) = source {
        let start = numeric_field(range, &start_names);
        let duration = numeric_field(range, &duration_names);
        return match (start, duration) {
            (Some(s), Some(d)) => Some((s, d)),
            _ => None,
        };
    }
    let start = match numeric_field(segment, &start_names) {
        Some(s) => s,
        None => return None,
    };
    match numeric_field(segment, &duration_names) {
        Some(d) => Some((start, d)),
        None => match numeric_field(segment, &end_names) {
            Some(end) => Some((start, end.saturating_sub(start))),
            None => None,
        },
    }
}

} // verus!

verus! {

/// Law: the string read under a list of keys is the value of the earliest key
/// that holds a string, and no earlier key holds one.
pub proof fn lemma_first_string_meaning(entries: Seq<(String, Json)>, keys: Seq<Seq<char>>)
    ensures
        first_string(entries, keys) matches Some(t) ==> exists|i: int|
            #![trigger keys[i]]
            0 <= i < keys.len() && (member(entries, keys[i]) matches Some(Json::String(s)) && s@ == t)
                && forall|j: int|
                0 <= j < i ==> !(#[trigger] member(entries, keys[j]) matches Some(Json::String(_))),
        first_string(entries, keys) is None ==> forall|i: int|
            0 <= i < keys.len() ==> !(#[trigger] member(entries, keys[i]) matches Some(
                Json::String(_),
            )),
    decreases keys.len(),
{
    if keys.len() > 0 {
        let rest = keys.drop_first();
        lemma_first_string_meaning(entries, rest);
        match member(entries, keys[0]) {
            Some(Json::String(s)) => {
                assert(keys[0] == keys[0]);
            },
            _ => {
                if let Some(t) = first_string(entries, rest) {
                    let i = choose|i: int|
                        #![trigger rest[i]]
                        0 <= i < rest.len() && (member(entries, rest[i]) matches Some(
                            Json::String(s),
                        ) && s@ == t) && forall|j: int|
                            0 <= j < i ==> !(#[trigger] member(entries, rest[j]) matches Some(
                                Json::String(_),
                            ));
                    assert(keys[i + 1] == rest[i]);
                    assert forall|j: int| 0 <= j < i + 1 implies !(#[trigger] member(
                        entries,
                        keys[j],
                    ) matches Some(Json::String(_))) by {
                        if j > 0 {
                            assert(keys[j] == rest[j - 1]);
                        }
                    }
                } else {
                    assert forall|i: int| 0 <= i < keys.len() implies !(#[trigger] member(
                        entries,
                        keys[i],
                    ) matches Some(Json::String(_))) by {
                        if i > 0 {
                            assert(keys[i] == rest[i - 1]);
                        }
                    }
                }
            },
        }
    }
}

/// Law: the names a timing is read under: a start as `start`, `start_time`
/// or `startTime`; a duration as `duration`; an end as `end`, `end_time` or
/// `endTime`, each list tried in that order.
pub proof fn lemma_timing_keys()
    ensures
        start_keys() == seq!["start"@, "start_time"@, "startTime"@],
        duration_keys() == seq!["duration"@],
        end_keys() == seq!["end"@, "end_time"@, "endTime"@],
{
}

} // verus!
