//! The transcript of a draft: one line per captioned segment, with clock
//! times, sorted by start.

use vstd::prelude::*;
use vstd::string::StringExecFns;
use crate::content::{
    Material, caption_signal, contains_caption_signal, find_material, latest_material,
    materials_of, text_materials,
};
use crate::fields::{first_string, key_views, segment_timing, string_field, timerange};
use crate::inspect::{inspect_draft_content, inspection_lines};
use crate::json::{Json, array_items, field, field_of};
use crate::project::{DraftFile, ProjectReadError};
use crate::sort::{
    SortKey, lemma_empty_stably_sorted, lemma_sorted_elements_from_input,
    lemma_stable_sort_permutes, sort_stable, stably_sorted, views,
};
use crate::text::{clock_text, decimal, format_timestamp, push_char, push_decimal};

verus! {

/// A transcript line: the caption's id, its start, end and length in
/// milliseconds, its start rendered as a clock time, and its text.
#[derive(Debug)]
pub struct TranscriptItem {
    pub id: String,
    pub start_ms: u64,
    pub end_ms: u64,
    pub duration_ms: u64,
    pub timestamp: String,
    pub text: String,
}

/// The content of a transcript line.
pub struct TranscriptEntry {
    pub id: Seq<char>,
    pub start_ms: u64,
    pub end_ms: u64,
    pub duration_ms: u64,
    pub timestamp: Seq<char>,
    pub text: Seq<char>,
}

impl View for TranscriptItem {
    type V = TranscriptEntry;

    open spec fn view(&self) -> TranscriptEntry {
        TranscriptEntry {
            id: self.id@,
            start_ms: self.start_ms,
            end_ms: self.end_ms,
            duration_ms: self.duration_ms,
            timestamp: self.timestamp@,
            text: self.text@,
        }
    }
}

impl SortKey for TranscriptItem {
    /// Lines are ordered by start.
    open spec fn key_of(v: TranscriptEntry) -> int {
        v.start_ms as int
    }

    fn sort_key(&self) -> (k: i128) {
        self.start_ms as i128
    }
}

/// The latest end among the lines, 0 when there are none.
pub open spec fn max_end(entries: Seq<TranscriptEntry>) -> u64
    decreases entries.len(),
{
    if entries.len() == 0 {
        0
    } else {
        let prev = max_end(entries.drop_last());
        if entries.last().end_ms > prev {
            entries.last().end_ms
        } else {
            prev
        }
    }
}

/// The longest end, in milliseconds, a transcript is taken to reach: one day.
pub const DAY_MS: u64 = 86_400_000u64;

/// A line with its clock time set from its start.
pub open spec fn stamped(e: TranscriptEntry) -> TranscriptEntry {
    TranscriptEntry {
        id: e.id,
        start_ms: e.start_ms,
        end_ms: e.end_ms,
        duration_ms: e.duration_ms,
        timestamp: clock_text(e.start_ms as nat),
        text: e.text,
    }
}

/// A line whose times were counted in microseconds, brought to milliseconds
/// (rounding down), with its clock time set from the new start.
pub open spec fn rescaled(e: TranscriptEntry) -> TranscriptEntry {
    TranscriptEntry {
        id: e.id,
        start_ms: e.start_ms / 1000,
        end_ms: e.end_ms / 1000,
        duration_ms: e.duration_ms / 1000,
        timestamp: clock_text((e.start_ms / 1000) as nat),
        text: e.text,
    }
}

/// The lines with their clock times set. When some line ends after one day,
/// the times are taken to be microseconds and all are divided by 1000 first.
pub open spec fn converted(entries: Seq<TranscriptEntry>) -> Seq<TranscriptEntry> {
    if max_end(entries) <= DAY_MS {
        entries.map_values(|e: TranscriptEntry| stamped(e))
    } else {
        entries.map_values(|e: TranscriptEntry| rescaled(e))
    }
}

fn latest_end(items: &Vec<TranscriptItem>) -> (res: u64)
    ensures
        res == max_end(views(items@)),
{
    let n = items.len();
    let mut best: u64 = 0;
    let mut i: usize = 0;
    assert(views(items@).take(0) =~= Seq::<TranscriptEntry>::empty());
    while i < n
        invariant
            i <= n,
            n == items@.len(),
            best == max_end(views(items@).take(i as int)),
        decreases n - i,
    {
        assert(views(items@).take(i + 1).drop_last() =~= views(items@).take(i as int));
        assert(views(items@).take(i + 1).last() == items@[i as int]@);
        if items[i].end_ms > best {
            best = items[i].end_ms;
        }
        i = i + 1;
    }
    assert(views(items@).take(n as int) =~= views(items@));
    best
}

/// Sets each line's clock time, first bringing microsecond times to
/// milliseconds when some line ends after one day.
pub fn convert_time_units(items: &mut Vec<TranscriptItem>)
    ensures
        views(final(items)@) == converted(views(old(items)@)),
{
    let max_end_ms = latest_end(items);
    let scale = max_end_ms > DAY_MS;
    let ghost orig = views(items@);
    let n = items.len();
    let mut i: usize = 0;
    while i < n
        invariant
            i <= n,
            n == items@.len(),
            orig.len() == n,
            scale == (max_end(orig) > DAY_MS),
            forall|j: int| 0 <= j < i ==> #[trigger] items@[j]@ == converted(orig)[j],
            forall|j: int| i <= j < n ==> #[trigger] items@[j]@ == orig[j],
        decreases n - i,
    {
        let ghost e = orig[i as int];
        assert(items@[i as int]@ == e);
        if scale {
            items[i].start_ms = items[i].start_ms / 1000;
            items[i].end_ms = items[i].end_ms / 1000;
            items[i].duration_ms = items[i].duration_ms / 1000;
        }
        let stamp = format_timestamp(items[i].start_ms);
        items[i].timestamp = stamp;
        proof {
            let target = if scale {
                rescaled(e)
            } else {
                stamped(e)
            };
            assert(converted(orig)[i as int] == target);
            assert(items@[i as int].id@ == target.id);
            assert(items@[i as int].text@ == target.text);
            assert(items@[i as int].start_ms == target.start_ms);
            assert(items@[i as int].timestamp@ == target.timestamp);
            assert(items@[i as int]@ == target);
        }
        i = i + 1;
    }
    assert(views(items@) =~= converted(orig));
}


/// Keys under which a segment names its text material.
pub open spec fn segment_material_keys() -> Seq<Seq<char>> {
    seq!["material_id"@, "materialId"@, "id"@]
}

/// `a + b`, or `u64::MAX` when that does not fit.
pub open spec fn saturating_add(a: u64, b: u64) -> u64 {
    if a + b <= u64::MAX {
        (a + b) as u64
    } else {
        u64::MAX
    }
}

/// The id given to a segment without one: `material:start:duration`.
pub open spec fn fallback_id(material_id: Seq<char>, start: u64, duration: u64) -> Seq<char> {
    material_id + seq![':'] + decimal(start as nat) + seq![':'] + decimal(duration as nat)
}

/// The transcript line a segment gives, before clock times are set: the
/// segment must be an object naming a known text material, the track, the
/// material or the segment itself must mention captions, and the segment must
/// have a timing.
pub open spec fn segment_entry(
    materials: Seq<(Seq<char>, Seq<char>, bool)>,
    track_signal: bool,
    segment: Json,
) -> Option<TranscriptEntry> {
    match segment {
        Json::Object(object) => match first_string(object@, segment_material_keys()) {
            None => None,
            Some(material_id) => match latest_material(materials, material_id) {
                None => None,
                Some((text, material_signal)) => if !track_signal && !material_signal
                    && !caption_signal(segment) {
                    None
                } else {
                    match segment_timing(object@) {
                        None => None,
                        Some((start, duration)) => Some(
                            TranscriptEntry {
                                id: match first_string(object@, seq!["id"@]) {
                                    Some(id) => id,
                                    None => fallback_id(material_id, start, duration),
                                },
                                start_ms: start,
                                end_ms: saturating_add(start, duration),
                                duration_ms: duration,
                                timestamp: seq![],
                                text,
                            },
                        ),
                    }
                },
            },
        },
        _ => None,
    }
}

/// The segments of a track, each paired with whether the track mentions captions.
pub open spec fn segments_of(track: Json) -> Seq<(bool, Json)> {
    match array_items(field(track, "segments"@)) {
        Some(segments) => segments.map_values(|s: Json| (caption_signal(track), s)),
        None => seq![],
    }
}

/// The segments of all tracks, in order.
pub open spec fn track_segments(tracks: Seq<Json>) -> Seq<(bool, Json)>
    decreases tracks.len(),
{
    if tracks.len() == 0 {
        seq![]
    } else {
        track_segments(tracks.drop_last()) + segments_of(tracks.last())
    }
}

/// Some line carries the id.
pub open spec fn has_id(entries: Seq<TranscriptEntry>, id: Seq<char>) -> bool {
    exists|i: int| 0 <= i < entries.len() && #[trigger] entries[i].id == id
}

/// The lines the segments give, in order, keeping only the first line of each id.
pub open spec fn collect_entries(
    materials: Seq<(Seq<char>, Seq<char>, bool)>,
    segments: Seq<(bool, Json)>,
) -> Seq<TranscriptEntry>
    decreases segments.len(),
{
    if segments.len() == 0 {
        seq![]
    } else {
        let prev = collect_entries(materials, segments.drop_last());
        match segment_entry(materials, segments.last().0, segments.last().1) {
            Some(e) => if has_id(prev, e.id) {
                prev
            } else {
                prev.push(e)
            },
            None => prev,
        }
    }
}

/// The transcript lines of a draft, with clock times set, before sorting.
pub open spec fn transcript_entries(value: Json) -> Seq<TranscriptEntry> {
    match array_items(field(value, "tracks"@)) {
        Some(tracks) => converted(collect_entries(materials_of(value), track_segments(tracks))),
        None => seq![],
    }
}

fn segment_item(materials: &Vec<Material>, track_signal: bool, segment: &Json) -> (res: Option<
    TranscriptItem,
>)
    ensures
        match res {
            Some(item) => segment_entry(views(materials@), track_signal, *segment) == Some(item@),
            None => segment_entry(views(materials@), track_signal, *segment) is None,
        },
{
    let object = match segment {
        Json::Object(object) => object,
        _ => return None,
    };
    let material_keys = ["material_id", "materialId", "id"];
    assert(key_views(material_keys@) =~= segment_material_keys());
    let material_id = match string_field(object, &material_keys) {
        Some(id) => id,
        None => return None,
    };
    let material = match find_material(materials, material_id.as_str()) {
        Some(m) => m,
        None => return None,
    };
    if !track_signal && !material.caption && !contains_caption_signal(segment) {
        return None;
    }
    let (start, duration) = match timerange(object) {
        Some(t) => t,
        None => return None,
    };
    let id_keys = ["id"];
    assert(key_views(id_keys@) =~= seq!["id"@]);
    let id = match string_field(object, &id_keys) {
        Some(id) => id,
        None => {
            let mut id = material_id.clone();
            push_char(&mut id, ':');
            push_decimal(&mut id, start as u128);
            push_char(&mut id, ':');
            push_decimal(&mut id, duration as u128);
            assert(id@ =~= fallback_id(material_id@, start, duration));
            id
        },
    };
    let item = TranscriptItem {
        id,
        start_ms: start,
        end_ms: start.saturating_add(duration),
        duration_ms: duration,
        timestamp: String::new(),
        text: material.text.clone(),
    };
    assert(item@.timestamp =~= Seq::<char>::empty());
    Some(item)
}

fn has_item_id(items: &Vec<TranscriptItem>, id: &String) -> (res: bool)
    ensures
        res == has_id(views(items@), id@),
{
    let n = items.len();
    let mut i: usize = 0;
    while i < n
        invariant
            i <= n,
            n == items@.len(),
            forall|j: int| 0 <= j < i ==> items@[j].id@ != id@,
        decreases n - i,
    {
        if items[i].id == *id {
            assert(views(items@)[i as int].id == id@);
            return true;
        }
        i = i + 1;
    }
    assert forall|j: int| 0 <= j < views(items@).len() implies #[trigger] views(items@)[j].id != id@ by {
        assert(views(items@)[j] == items@[j]@);
    }
    false
}


/// Builds the transcript of a draft: one line per captioned segment with a
/// known text material and a timing, the first line of each id kept, clock
/// times set, and the lines sorted by start (lines that start together stay
/// in document order).
pub fn extract_transcript(value: &Json) -> (res: Vec<TranscriptItem>)
    ensures
        stably_sorted::<TranscriptItem>(views(res@), transcript_entries(*value)),
        ids_distinct(views(res@)),
        lines_consistent(views(res@)),
        forall|i: int, j: int|
            0 <= i < j < res@.len() ==> #[trigger] res@[i].start_ms <= #[trigger] res@[j].start_ms,
{
    let materials = text_materials(value);
    let mut items: Vec<TranscriptItem> = Vec::new();
    let tracks = match field_of(value, "tracks") {
        Some(Json::Array(tracks)) => tracks,
        _ => {
            proof {
                lemma_empty_stably_sorted::<TranscriptItem>();
                assert(views(items@) =~= Seq::<TranscriptEntry>::empty());
                assert(transcript_entries(*value) =~= Seq::<TranscriptEntry>::empty());
                lemma_transcript_ids_distinct(*value, views(items@));
                lemma_transcript_lines_consistent(*value, views(items@));
                lemma_transcript_by_start(views(items@), transcript_entries(*value));
            }
            return items;
        },
    };
    let ghost mats = views(materials@);
    let nt = tracks.len();
    let mut t: usize = 0;
    assert(tracks@.take(0) =~= Seq::<Json>::empty());
    while t < nt
        invariant
            t <= nt,
            nt == tracks@.len(),
            mats == views(materials@),
            views(items@) == collect_entries(mats, track_segments(tracks@.take(t as int))),
        decreases nt - t,
    {
        let track = &tracks[t];
        let ghost done = track_segments(tracks@.take(t as int));
        assert(tracks@.take(t + 1).drop_last() =~= tracks@.take(t as int));
        assert(tracks@.take(t + 1).last() == *track);
        assert(track_segments(tracks@.take(t + 1)) == done + segments_of(*track));
        let track_signal = contains_caption_signal(track);
        if let Some(Json::Array(segments)) = field_of(track, "segments") {
            let ghost segs = segments_of(*track);
            assert(segs =~= segments@.map_values(|s: Json| (track_signal, s)));
            let ns = segments.len();
            let mut k: usize = 0;
            assert(done + segs.take(0) =~= done);
            while k < ns
                invariant
                    k <= ns,
                    ns == segments@.len(),
                    mats == views(materials@),
                    segs == segments@.map_values(|s: Json| (track_signal, s)),
                    views(items@) == collect_entries(mats, done + segs.take(k as int)),
                decreases ns - k,
            {
                let ghost prefix = done + segs.take(k + 1);
                assert(prefix.drop_last() =~= done + segs.take(k as int));
                assert(prefix.last() == (track_signal, segments@[k as int]));
                if let Some(item) = segment_item(&materials, track_signal, &segments[k]) {
                    if !has_item_id(&items, &item.id) {
                        let ghost before = views(items@);
                        items.push(item);
                        assert(views(items@) =~= before.push(item@));
                    }
                }
                k = k + 1;
            }
            assert(segs.take(ns as int) =~= segs);
        } else {
            assert(segments_of(*track) =~= Seq::<(bool, Json)>::empty());
            assert(done + segments_of(*track) =~= done);
        }
        t = t + 1;
    }
    assert(tracks@.take(nt as int) =~= tracks@);
    assert(materials_of(*value) == mats);
    convert_time_units(&mut items);
    let sorted = sort_stable(items);
    proof {
        lemma_transcript_ids_distinct(*value, views(sorted@));
        lemma_transcript_lines_consistent(*value, views(sorted@));
        lemma_transcript_by_start(views(sorted@), transcript_entries(*value));
        assert forall|i: int, j: int| 0 <= i < j < sorted@.len() implies #[trigger] sorted@[i].start_ms
            <= #[trigger] sorted@[j].start_ms by {
            assert(views(sorted@)[i] == sorted@[i]@);
            assert(views(sorted@)[j] == sorted@[j]@);
        }
    }
    sorted
}


/// The transcript of a project.
#[derive(Debug)]
pub struct CapCutTranscriptResult {
    pub project_id: String,
    pub caption_file_found: bool,
    pub caption_count: usize,
    pub duration_ms: u64,
    pub duration: String,
    pub items: Vec<TranscriptItem>,
}

/// The id shown for a project: its folder name, or `-` when it has none.
pub fn project_label(folder_name: Option<String>) -> (res: String)
    ensures
        res@ == match folder_name {
            Some(name) => name@,
            None => seq!['-'],
        },
{
    match folder_name {
        Some(name) => name,
        None => {
            let mut s = String::new();
            push_char(&mut s, '-');
            s
        },
    }
}

/// The file captions are read from.
#[derive(Debug, Clone, Copy, PartialEq, Eq, Structural)]
pub enum CaptionSource {
    /// `draft_content.json`.
    DraftContent,
    /// `draft_info.json`, used when there is no `draft_content.json`.
    DraftInfo,
}

/// Picks the caption file: `draft_content.json` when it is a file, else `draft_info.json`.
pub fn caption_source(content_is_file: bool) -> (res: CaptionSource)
    ensures
        res == (if content_is_file {
            CaptionSource::DraftContent
        } else {
            CaptionSource::DraftInfo
        }),
{
    if content_is_file {
        CaptionSource::DraftContent
    } else {
        CaptionSource::DraftInfo
    }
}

/// The summary of every failure to read captions.
pub open spec fn captions_unreadable() -> Seq<char> {
    "Caption belum dapat dibaca dari project ini."@
}

/// Builds a project's transcript from its caption file, together with the
/// lines that describe the file's shape. Fails when the file could not be
/// read or is not JSON.
pub fn read_capcut_transcript(project_id: String, content: DraftFile) -> (res: Result<
    (CapCutTranscriptResult, Vec<String>),
    ProjectReadError,
>)
    ensures
        match content {
            DraftFile::Unreadable => res matches Err(e) && e.message@ == captions_unreadable()
                && e.detail@ == "File project CapCut tidak dapat dibaca."@,
            DraftFile::NotJson => res matches Err(e) && e.message@ == captions_unreadable()
                && e.detail@ == "File project CapCut bukan JSON yang valid."@,
            DraftFile::Parsed(value) => res matches Ok((result, lines)) && {
                &&& result.project_id == project_id
                &&& result.caption_file_found
                &&& stably_sorted::<TranscriptItem>(
                    views(result.items@),
                    transcript_entries(value),
                )
                &&& ids_distinct(views(result.items@))
                &&& lines_consistent(views(result.items@))
                &&& forall|i: int, j: int|
                    0 <= i < j < result.items@.len() ==> #[trigger] result.items@[i].start_ms
                        <= #[trigger] result.items@[j].start_ms
                &&& forall|i: int|
                    0 <= i < result.items@.len() ==> #[trigger] result.items@[i].end_ms
                        <= result.duration_ms
                &&& result.items@.len() > 0 ==> exists|i: int|
                    0 <= i < result.items@.len() && #[trigger] result.items@[i].end_ms
                        == result.duration_ms
                &&& result.caption_count == result.items@.len()
                &&& result.duration_ms == max_end(views(result.items@))
                &&& result.duration@ == clock_text(result.duration_ms as nat)
                &&& views(lines@) == inspection_lines(value)
            },
        },
{
    let value = match content {
        DraftFile::Unreadable => {
            return Err(
                ProjectReadError {
                    message: String::from_str("Caption belum dapat dibaca dari project ini."),
                    detail: String::from_str("File project CapCut tidak dapat dibaca."),
                },
            );
        },
        DraftFile::NotJson => {
            return Err(
                ProjectReadError {
                    message: String::from_str("Caption belum dapat dibaca dari project ini."),
                    detail: String::from_str("File project CapCut bukan JSON yang valid."),
                },
            );
        },
        DraftFile::Parsed(value) => value,
    };
    let lines = inspect_draft_content(&value);
    let items = extract_transcript(&value);
    let duration_ms = latest_end(&items);
    proof {
        lemma_max_end_bounds(views(items@));
        assert forall|i: int| 0 <= i < items@.len() implies #[trigger] items@[i].end_ms
            <= duration_ms by {
            assert(views(items@)[i] == items@[i]@);
            assert(views(items@)[i].end_ms <= max_end(views(items@)));
        }
        if items@.len() > 0 {
            let k = choose|k: int| 0 <= k < views(items@).len() && views(items@)[k].end_ms == duration_ms;
            assert(views(items@)[k] == items@[k]@);
        }
    }
    let duration = format_timestamp(duration_ms);
    let caption_count = items.len();
    Ok(
        (
            CapCutTranscriptResult {
                project_id,
                caption_file_found: true,
                caption_count,
                duration_ms,
                duration,
                items,
            },
            lines,
        ),
    )
}


/// No two lines share an id.
pub open spec fn ids_distinct(entries: Seq<TranscriptEntry>) -> bool {
    forall|i: int, j: int| 0 <= i < j < entries.len() ==> entries[i].id != entries[j].id
}

proof fn lemma_collected_ids_distinct(
    materials: Seq<(Seq<char>, Seq<char>, bool)>,
    segments: Seq<(bool, Json)>,
)
    ensures
        ids_distinct(collect_entries(materials, segments)),
    decreases segments.len(),
{
    if segments.len() > 0 {
        lemma_collected_ids_distinct(materials, segments.drop_last());
        let prev = collect_entries(materials, segments.drop_last());
        match segment_entry(materials, segments.last().0, segments.last().1) {
            Some(e) => {
                if !has_id(prev, e.id) {
                    let next = prev.push(e);
                    assert forall|i: int, j: int| 0 <= i < j < next.len() implies next[i].id
                        != next[j].id by {
                        if j == next.len() - 1 {
                            assert(prev[i].id != e.id);
                        }
                    }
                }
            },
            None => {},
        }
    }
}

proof fn lemma_transcript_entries_distinct(value: Json)
    ensures
        ids_distinct(transcript_entries(value)),
{
    match array_items(field(value, "tracks"@)) {
        Some(tracks) => {
            let collected = collect_entries(materials_of(value), track_segments(tracks));
            lemma_collected_ids_distinct(materials_of(value), track_segments(tracks));
            let conv = converted(collected);
            assert forall|i: int, j: int| 0 <= i < j < conv.len() implies conv[i].id
                != conv[j].id by {
                assert(conv[i].id == collected[i].id);
                assert(conv[j].id == collected[j].id);
            }
        },
        None => {},
    }
}

/// Law: a transcript never holds two lines with the same id, however its
/// lines are ordered, as long as it is a stable sort of the collected lines.
pub proof fn lemma_transcript_ids_distinct(value: Json, out: Seq<TranscriptEntry>)
    requires
        stably_sorted::<TranscriptItem>(out, transcript_entries(value)),
    ensures
        ids_distinct(out),
{
    broadcast use vstd::seq_lib::group_to_multiset_ensures;

    let inp = transcript_entries(value);
    lemma_transcript_entries_distinct(value);
    lemma_stable_sort_permutes::<TranscriptItem>(out, inp);
    assert(inp.no_duplicates());
    inp.lemma_multiset_has_no_duplicates();
    assert forall|x: TranscriptEntry| out.to_multiset().contains(x) implies out.to_multiset().count(
        x,
    ) == 1 by {
        assert(inp.to_multiset().contains(x));
    }
    out.lemma_multiset_has_no_duplicates_conv();
    assert forall|i: int, j: int| 0 <= i < j < out.len() implies out[i].id != out[j].id by {
        assert(out.contains(out[i]));
        assert(out.contains(out[j]));
        assert(out.to_multiset().count(out[i]) > 0);
        assert(out.to_multiset().count(out[j]) > 0);
        assert(inp.contains(out[i]));
        assert(inp.contains(out[j]));
        let k1 = choose|k: int| 0 <= k < inp.len() && inp[k] == out[i];
        let k2 = choose|k: int| 0 <= k < inp.len() && inp[k] == out[j];
        if out[i].id == out[j].id {
            if k1 < k2 {
                assert(inp[k1].id != inp[k2].id);
            } else if k2 < k1 {
                assert(inp[k2].id != inp[k1].id);
            }
            assert(out[i] == out[j]);
        }
    }
}


/// Every line shows its start as its clock time and ends no earlier than it starts.
pub open spec fn lines_consistent(entries: Seq<TranscriptEntry>) -> bool {
    forall|i: int|
        0 <= i < entries.len() ==> {
            &&& #[trigger] entries[i].timestamp == clock_text(entries[i].start_ms as nat)
            &&& entries[i].start_ms <= entries[i].end_ms
        }
}

proof fn lemma_collected_ordered(
    materials: Seq<(Seq<char>, Seq<char>, bool)>,
    segments: Seq<(bool, Json)>,
)
    ensures
        forall|i: int|
            0 <= i < collect_entries(materials, segments).len() ==> #[trigger] collect_entries(
                materials,
                segments,
            )[i].start_ms <= collect_entries(materials, segments)[i].end_ms,
    decreases segments.len(),
{
    if segments.len() > 0 {
        lemma_collected_ordered(materials, segments.drop_last());
        let prev = collect_entries(materials, segments.drop_last());
        let cur = collect_entries(materials, segments);
        match segment_entry(materials, segments.last().0, segments.last().1) {
            Some(e) => {
                assert(e.start_ms <= e.end_ms);
                if !has_id(prev, e.id) {
                    assert(cur == prev.push(e));
                    assert forall|i: int| 0 <= i < cur.len() implies #[trigger] cur[i].start_ms
                        <= cur[i].end_ms by {
                        if i < prev.len() {
                            assert(cur[i] == prev[i]);
                        }
                    }
                }
            },
            None => {},
        }
    }
}

proof fn lemma_division_monotone(a: u64, b: u64)
    requires
        a <= b,
    ensures
        a / 1000 <= b / 1000,
{
    assert(a / 1000 <= b / 1000) by (nonlinear_arith)
        requires
            a <= b,
    ;
}

/// Law: every line of a transcript shows its own start as its clock time,
/// and no line ends before it starts.
pub proof fn lemma_transcript_lines_consistent(value: Json, out: Seq<TranscriptEntry>)
    requires
        stably_sorted::<TranscriptItem>(out, transcript_entries(value)),
    ensures
        lines_consistent(out),
{
    let inp = transcript_entries(value);
    match array_items(field(value, "tracks"@)) {
        Some(tracks) => {
            let collected = collect_entries(materials_of(value), track_segments(tracks));
            lemma_collected_ordered(materials_of(value), track_segments(tracks));
            assert forall|i: int| 0 <= i < inp.len() implies inp[i].timestamp == clock_text(
                inp[i].start_ms as nat,
            ) && inp[i].start_ms <= inp[i].end_ms by {
                let e = collected[i];
                assert(e.start_ms <= e.end_ms);
                if max_end(collected) > DAY_MS {
                    assert(inp[i] == rescaled(e));
                    lemma_division_monotone(e.start_ms, e.end_ms);
                } else {
                    assert(inp[i] == stamped(e));
                }
            }
        },
        None => {},
    }
    lemma_sorted_elements_from_input::<TranscriptItem>(out, inp);
    assert forall|i: int| 0 <= i < out.len() implies #[trigger] out[i].timestamp == clock_text(
        out[i].start_ms as nat,
    ) && out[i].start_ms <= out[i].end_ms by {
        assert(inp.contains(out[i]));
        let k = choose|k: int| 0 <= k < inp.len() && inp[k] == out[i];
        assert(inp[k].start_ms <= inp[k].end_ms);
    }
}


/// Law: the latest end is at least the end of every line and, when there are
/// lines, is the end of one of them.
pub proof fn lemma_max_end_bounds(entries: Seq<TranscriptEntry>)
    ensures
        forall|i: int| 0 <= i < entries.len() ==> #[trigger] entries[i].end_ms <= max_end(entries),
        entries.len() > 0 ==> exists|i: int|
            0 <= i < entries.len() && #[trigger] entries[i].end_ms == max_end(entries),
    decreases entries.len(),
{
    if entries.len() > 0 {
        let prev = entries.drop_last();
        lemma_max_end_bounds(prev);
        assert forall|i: int| 0 <= i < entries.len() implies #[trigger] entries[i].end_ms
            <= max_end(entries) by {
            if i < prev.len() {
                assert(entries[i] == prev[i]);
            }
        }
        if entries.last().end_ms > max_end(prev) || prev.len() == 0 {
            assert(entries[entries.len() - 1].end_ms == max_end(entries));
        } else {
            let k = choose|k: int| 0 <= k < prev.len() && prev[k].end_ms == max_end(prev);
            assert(entries[k] == prev[k]);
        }
    }
}

} // verus!

verus! {

/// Law: the lines of a transcript come in order of start: no line starts
/// before the line ahead of it.
pub proof fn lemma_transcript_by_start(out: Seq<TranscriptEntry>, inp: Seq<TranscriptEntry>)
    requires
        stably_sorted::<TranscriptItem>(out, inp),
    ensures
        forall|i: int, j: int|
            0 <= i < j < out.len() ==> #[trigger] out[i].start_ms <= #[trigger] out[j].start_ms,
{
    assert forall|i: int, j: int| 0 <= i < j < out.len() implies #[trigger] out[i].start_ms
        <= #[trigger] out[j].start_ms by {
        assert(TranscriptItem::key_of(out[i]) <= TranscriptItem::key_of(out[j]));
    }
}

} // verus!
