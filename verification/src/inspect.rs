//! A description of a draft's shape, for the log.

use vstd::prelude::*;
use vstd::string::StringExecFns;
use crate::json::{
    Json, array_items, field, field_of, kind_name, member, member_of, object_members, value_kind,
};
use crate::sort::views;
use crate::text::{decimal, push_decimal};

verus! {

/// Parts joined with `sep` between neighbours.
pub open spec fn join_with(parts: Seq<Seq<char>>, sep: Seq<char>) -> Seq<char>
    decreases parts.len(),
{
    if parts.len() == 0 {
        seq![]
    } else if parts.len() == 1 {
        parts[0]
    } else {
        join_with(parts.drop_last(), sep) + sep + parts.last()
    }
}

/// The keys of a list of object members.
pub open spec fn member_keys(entries: Seq<(String, Json)>) -> Seq<Seq<char>> {
    entries.map_values(|e: (String, Json)| e.0@)
}

/// How the inspection describes one top-level member.
pub open spec fn member_line(key: Seq<char>, child: Json) -> Seq<char> {
    key + ": "@ + match child {
        Json::Array(items) => "array("@ + decimal(items@.len()) + ")"@,
        Json::Object(entries) => "object("@ + decimal(entries@.len()) + " keys)"@,
        _ => kind_name(child),
    }
}

/// The number of segments a track holds (0 when it has no segment array).
pub open spec fn segment_count(track: Json) -> nat {
    match array_items(field(track, "segments"@)) {
        Some(segments) => segments.len(),
        None => 0,
    }
}

/// The number of segments over all tracks.
pub open spec fn segment_total(tracks: Seq<Json>) -> nat
    decreases tracks.len(),
{
    if tracks.len() == 0 {
        0
    } else {
        segment_total(tracks.drop_last()) + segment_count(tracks.last())
    }
}

/// The inspection lines about `materials`.
pub open spec fn materials_lines(entries: Seq<(String, Json)>) -> Seq<Seq<char>> {
    match object_members(member(entries, "materials"@)) {
        Some(materials) => seq!["materials keys: "@ + join_with(member_keys(materials), ", "@)]
            + match array_items(member(materials, "texts"@)) {
            Some(texts) => seq!["materials.texts: "@ + decimal(texts.len())],
            None => seq![],
        },
        None => seq![],
    }
}

/// The inspection lines about `tracks`.
pub open spec fn track_lines(entries: Seq<(String, Json)>) -> Seq<Seq<char>> {
    match array_items(member(entries, "tracks"@)) {
        Some(tracks) => seq![
            "tracks: "@ + decimal(tracks.len()),
            "track segments: "@ + decimal(segment_total(tracks)),
        ],
        None => seq![],
    }
}

/// The lines that describe the shape of a draft: a heading, then for an
/// object its keys, one line per member, the keys and text count of
/// `materials`, and the track and segment counts.
pub open spec fn inspection_lines(value: Json) -> Seq<Seq<char>> {
    seq!["[CapCut Draft Content Inspection]"@] + match value {
        Json::Object(entries) => seq!["Top-level keys: "@ + join_with(member_keys(entries@), ", "@)]
            + entries@.map_values(|e: (String, Json)| member_line(e.0@, e.1)) + materials_lines(
            entries@,
        ) + track_lines(entries@),
        _ => seq![],
    }
}

fn joined_keys(prefix: &str, entries: &Vec<(String, Json)>) -> (res: String)
    ensures
        res@ == prefix@ + join_with(member_keys(entries@), ", "@),
{
    let mut out = String::from_str(prefix);
    let n = entries.len();
    let mut i: usize = 0;
    assert(member_keys(entries@).take(0) =~= Seq::<Seq<char>>::empty());
    while i < n
        invariant
            i <= n,
            n == entries@.len(),
            out@ == prefix@ + join_with(member_keys(entries@).take(i as int), ", "@),
        decreases n - i,
    {
        let ghost keys = member_keys(entries@).take(i + 1);
        assert(keys.drop_last() =~= member_keys(entries@).take(i as int));
        assert(keys.last() == entries@[i as int].0@);
        if i > 0 {
            out.append(", ");
        }
        out.append(entries[i].0.as_str());
        assert(out@ =~= prefix@ + join_with(keys, ", "@));
        i = i + 1;
    }
    assert(member_keys(entries@).take(n as int) =~= member_keys(entries@));
    out
}

fn describe_member(key: &String, child: &Json) -> (res: String)
    ensures
        res@ == member_line(key@, *child),
{
    let mut out = key.clone();
    out.append(": ");
    match child {
        Json::Array(items) => {
            out.append("array(");
            push_decimal(&mut out, items.len() as u128);
            out.append(")");
        },
        Json::Object(entries) => {
            out.append("object(");
            push_decimal(&mut out, entries.len() as u128);
            out.append(" keys)");
        },
        _ => out.append(value_kind(child)),
    }
    assert(out@ =~= member_line(key@, *child));
    out
}

fn count_segments(tracks: &Vec<Json>) -> (res: u128)
    ensures
        res == segment_total(tracks@),
{
    let n = tracks.len();
    let mut total: u128 = 0;
    let mut i: usize = 0;
    assert(tracks@.take(0) =~= Seq::<Json>::empty());
    while i < n
        invariant
            i <= n,
            n == tracks@.len(),
            total == segment_total(tracks@.take(i as int)),
            total <= i * 0xffff_ffff_ffff_ffffu128,
        decreases n - i,
    {
        assert(tracks@.take(i + 1).drop_last() =~= tracks@.take(i as int));
        assert(tracks@.take(i + 1).last() == tracks@[i as int]);
        if let Some(Json::Array(segments)) = field_of(&tracks[i], "segments") {
            let len = segments.len();
            assert(total + len <= (i + 1) * 0xffff_ffff_ffff_ffffu128) by (nonlinear_arith)
                requires
                    total <= i * 0xffff_ffff_ffff_ffffu128,
                    len <= 0xffff_ffff_ffff_ffffu128,
            ;
            assert((i + 1) * 0xffff_ffff_ffff_ffffu128 <= 0xffff_ffff_ffff_ffffu128
                * 0xffff_ffff_ffff_ffffu128) by (nonlinear_arith)
                requires
                    i + 1 <= 0xffff_ffff_ffff_ffffu128,
            ;
            total = total + len as u128;
        } else {
            assert(total <= (i + 1) * 0xffff_ffff_ffff_ffffu128) by (nonlinear_arith)
                requires
                    total <= i * 0xffff_ffff_ffff_ffffu128,
            ;
        }
        i = i + 1;
    }
    assert(tracks@.take(n as int) =~= tracks@);
    total
}

/// Describes the shape of a draft for the log, one line per entry of
/// `inspection_lines`.
pub fn inspect_draft_content(value: &Json) -> (res: Vec<String>)
    ensures
        views(res@) == inspection_lines(*value),
{
    let mut lines: Vec<String> = Vec::new();
    lines.push(String::from_str("[CapCut Draft Content Inspection]"));
    let entries = match value {
        Json::Object(entries) => entries,
        _ => {
            assert(views(lines@) =~= inspection_lines(*value));
            return lines;
        },
    };
    lines.push(joined_keys("Top-level keys: ", entries));
    let n = entries.len();
    let mut i: usize = 0;
    let ghost head = views(lines@);
    let ghost member_lines = entries@.map_values(|e: (String, Json)| member_line(e.0@, e.1));
    assert(member_lines.take(0) =~= Seq::<Seq<char>>::empty());
    assert(head + member_lines.take(0) =~= head);
    while i < n
        invariant
            i <= n,
            n == entries@.len(),
            member_lines == entries@.map_values(|e: (String, Json)| member_line(e.0@, e.1)),
            views(lines@) == head + member_lines.take(i as int),
        decreases n - i,
    {
        let line = describe_member(&entries[i].0, &entries[i].1);
        let ghost before = views(lines@);
        lines.push(line);
        assert(views(lines@) =~= before.push(line@));
        assert(head + member_lines.take(i + 1) =~= (head + member_lines.take(i as int)).push(
            member_lines[i as int],
        ));
        i = i + 1;
    }
    assert(member_lines.take(n as int) =~= member_lines);
    let ghost after_members = views(lines@);
    if let Some(Json::Object(materials)) = member_of(entries, "materials") {
        lines.push(joined_keys("materials keys: ", materials));
        if let Some(Json::Array(texts)) = member_of(materials, "texts") {
            let mut line = String::from_str("materials.texts: ");
            push_decimal(&mut line, texts.len() as u128);
            lines.push(line);
        }
    }
    assert(views(lines@) =~= after_members + materials_lines(entries@));
    let ghost after_materials = views(lines@);
    if let Some(Json::Array(tracks)) = member_of(entries, "tracks") {
        let mut line = String::from_str("tracks: ");
        push_decimal(&mut line, tracks.len() as u128);
        lines.push(line);
        let mut total_line = String::from_str("track segments: ");
        push_decimal(&mut total_line, count_segments(tracks));
        lines.push(total_line);
    }
    assert(views(lines@) =~= after_materials + track_lines(entries@));
    assert(views(lines@) =~= inspection_lines(*value));
    lines
}

} // verus!
