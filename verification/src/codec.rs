//! The partition file format: a JSON array of entry objects.
//!
//! Each day's entries are stored as one JSON document.  The encoder
//! writes the canonical rendering; the decoder accepts any document the
//! crate's JSON parser accepts.  The round trip is proved: decoding an
//! encoded partition yields the same entries, whatever they hold and
//! however many there are.

use crate::entry::{entry_v_default, eseq, LogEntry, LogEntryV};
use crate::errors::AppError;
use crate::json::{
    enc, encode_json, jseq, jview, lemma_jview_composite, lemma_parse_json_enc, parse_json,
    parse_json_str, wf_json, Json, JsonV,
};
use crate::text::chars_to_string;
use vstd::prelude::*;

verus! {

/// The member key `id`.
pub open spec fn key_id() -> Seq<char> {
    "id"@
}

/// The member key `content`.
pub open spec fn key_content() -> Seq<char> {
    "content"@
}

/// The member key `created_at`.
pub open spec fn key_created_at() -> Seq<char> {
    "created_at"@
}

/// The member key `source`.
pub open spec fn key_source() -> Seq<char> {
    "source"@
}

/// The member key `tags`.
pub open spec fn key_tags() -> Seq<char> {
    "tags"@
}

/// The member key `timestamp`.
pub open spec fn key_timestamp() -> Seq<char> {
    "timestamp"@
}

/// The key `id`, as a string.
fn k_id() -> (s: String)
    ensures
        s@ == key_id(),
{
    String::from_str("id")
}

/// The key `content`, as a string.
fn k_content() -> (s: String)
    ensures
        s@ == key_content(),
{
    String::from_str("content")
}

/// The key `created_at`, as a string.
fn k_created_at() -> (s: String)
    ensures
        s@ == key_created_at(),
{
    String::from_str("created_at")
}

/// The key `source`, as a string.
fn k_source() -> (s: String)
    ensures
        s@ == key_source(),
{
    String::from_str("source")
}

/// The key `tags`, as a string.
fn k_tags() -> (s: String)
    ensures
        s@ == key_tags(),
{
    String::from_str("tags")
}

/// The key `timestamp`, as a string.
fn k_timestamp() -> (s: String)
    ensures
        s@ == key_timestamp(),
{
    String::from_str("timestamp")
}

/// The JSON strings of a tag list.
pub open spec fn tags_jv(tags: Seq<Seq<char>>) -> Seq<JsonV> {
    Seq::new(
        tags.len(),
        |k: int|
            if 0 <= k < tags.len() {
                JsonV::Str(tags[k])
            } else {
                JsonV::Null
            },
    )
}

/// The JSON object of one entry.
pub open spec fn entry_jv(ev: LogEntryV) -> JsonV {
    let base = seq![
        (key_id(), JsonV::Str(ev.id)),
        (key_content(), JsonV::Str(ev.content)),
        (key_created_at(), JsonV::Str(ev.created_at)),
        (key_source(), JsonV::Str(ev.source)),
        (key_tags(), JsonV::Arr(tags_jv(ev.tags))),
    ];
    match ev.timestamp {
        Some(t) => JsonV::Obj(base.push((key_timestamp(), JsonV::Str(t)))),
        None => JsonV::Obj(base),
    }
}

/// Whether every element is a JSON string.
pub open spec fn all_strs(es: Seq<JsonV>) -> bool {
    forall|k: int| 0 <= k < es.len() ==> (#[trigger] es[k]) is Str
}

/// The texts of a sequence of JSON strings.
pub open spec fn strs_of(es: Seq<JsonV>) -> Seq<Seq<char>> {
    Seq::new(
        es.len(),
        |k: int|
            if 0 <= k < es.len() && es[k] is Str {
                es[k]->Str_0
            } else {
                Seq::empty()
            },
    )
}

/// The entry a JSON value stands for, if it has exactly the expected
/// shape: the five keys in order, string fields, string tags, and an
/// optional trailing `timestamp`.
pub open spec fn entry_of_jv(j: JsonV) -> Option<LogEntryV> {
    match j {
        JsonV::Obj(ms) => {
            if (ms.len() == 5 || ms.len() == 6) && ms[0].0 == key_id() && ms[0].1 is Str
                && ms[1].0 == key_content() && ms[1].1 is Str && ms[2].0 == key_created_at()
                && ms[2].1 is Str && ms[3].0 == key_source() && ms[3].1 is Str && ms[4].0
                == key_tags() && ms[4].1 is Arr && all_strs(ms[4].1->Arr_0) && (ms.len() == 5 || (
            ms[5].0 == key_timestamp() && ms[5].1 is Str)) {
                Some(
                    LogEntryV {
                        id: ms[0].1->Str_0,
                        content: ms[1].1->Str_0,
                        created_at: ms[2].1->Str_0,
                        source: ms[3].1->Str_0,
                        tags: strs_of(ms[4].1->Arr_0),
                        timestamp: if ms.len() == 6 {
                            Some(ms[5].1->Str_0)
                        } else {
                            None
                        },
                    },
                )
            } else {
                None
            }
        }
        _ => None,
    }
}

/// The JSON array of a whole partition.
pub open spec fn partition_jv(evs: Seq<LogEntryV>) -> JsonV {
    JsonV::Arr(
        Seq::new(
            evs.len(),
            |k: int|
                if 0 <= k < evs.len() {
                    entry_jv(evs[k])
                } else {
                    JsonV::Null
                },
        ),
    )
}

/// The canonical text of a whole partition.
pub open spec fn encode_partition_spec(evs: Seq<LogEntryV>) -> Seq<char> {
    enc(partition_jv(evs))
}

/// The entries a JSON value stands for, if it is an array of entry
/// objects.
pub open spec fn entries_of_jv(j: JsonV) -> Option<Seq<LogEntryV>> {
    match j {
        JsonV::Arr(es) => {
            if forall|k: int| 0 <= k < es.len() ==> entry_of_jv(#[trigger] es[k]) is Some {
                Some(
                    Seq::new(
                        es.len(),
                        |k: int|
                            if 0 <= k < es.len() && entry_of_jv(es[k]) is Some {
                                entry_of_jv(es[k])->Some_0
                            } else {
                                entry_v_default()
                            },
                    ),
                )
            } else {
                None
            }
        }
        _ => None,
    }
}

/// What decoding a partition text yields.
pub open spec fn decode_partition_spec(s: Seq<char>) -> Option<Seq<LogEntryV>> {
    match parse_json(s) {
        Some(j) => entries_of_jv(j),
        None => None,
    }
}

/// Builds the JSON object of one entry.
pub fn entry_to_json(e: &LogEntry) -> (j: Json)
    ensures
        j@ == entry_jv(e@),
{
    let mut tj: Vec<Json> = Vec::new();
    let mut i: usize = 0;
    while i < e.tags.len()
        invariant
            i <= e.tags@.len(),
            tj@.len() == i,
            forall|k: int| 0 <= k < i ==> jview(#[trigger] tj@[k]) == JsonV::Str(e.tags@[k]@),
        decreases e.tags@.len() - i,
    {
        tj.push(Json::Str(e.tags[i].clone()));
        i = i + 1;
    }
    let tags_arr = Json::Arr(tj);
    proof {
        lemma_jview_composite(tags_arr);
        assert(tags_arr@->Arr_0 =~= tags_jv(e@.tags));
    }
    let mut ms: Vec<(String, Json)> = Vec::new();
    ms.push((k_id(), Json::Str(e.id.clone())));
    ms.push((k_content(), Json::Str(e.content.clone())));
    ms.push((k_created_at(), Json::Str(e.created_at.clone())));
    ms.push((k_source(), Json::Str(e.source.clone())));
    ms.push((k_tags(), tags_arr));
    match &e.timestamp {
        Some(t) => {
            ms.push((k_timestamp(), Json::Str(t.clone())));
        }
        None => {}
    }
    let out = Json::Obj(ms);
    proof {
        lemma_jview_composite(out);
        assert(out@->Obj_0 =~= entry_jv(e@)->Obj_0);
    }
    out
}

/// Reads one entry out of a JSON value.  Follows [`entry_of_jv`] exactly.
#[verifier::loop_isolation(false)]
pub fn json_to_entry(j: &Json) -> (r: Option<LogEntry>)
    ensures
        (match r {
            Some(e) => entry_of_jv(j@) == Some(e@),
            None => entry_of_jv(j@) is None,
        }),
{
    proof {
        lemma_jview_composite(*j);
    }
    match j {
        Json::Obj(ms) => {
            if !(ms.len() == 5 || ms.len() == 6) {
                return None;
            }
            let id = match &ms[0].1 {
                Json::Str(s) => s.clone(),
                _ => {
                    return None;
                }
            };
            let content = match &ms[1].1 {
                Json::Str(s) => s.clone(),
                _ => {
                    return None;
                }
            };
            let created_at = match &ms[2].1 {
                Json::Str(s) => s.clone(),
                _ => {
                    return None;
                }
            };
            let source = match &ms[3].1 {
                Json::Str(s) => s.clone(),
                _ => {
                    return None;
                }
            };
            if !(ms[0].0 == k_id() && ms[1].0 == k_content() && ms[2].0 == k_created_at()
                && ms[3].0 == k_source() && ms[4].0 == k_tags()) {
                return None;
            }
            let mut tags: Vec<String> = Vec::new();
            match &ms[4].1 {
                Json::Arr(es) => {
                    let ghost esv = jview(ms@[4].1)->Arr_0;
                    proof {
                        lemma_jview_composite(ms@[4].1);
                    }
                    let mut i: usize = 0;
                    while i < es.len()
                        invariant
                            i <= es@.len(),
                            esv == jseq(es@),
                            esv.len() == es@.len(),
                            tags@.len() == i,
                            forall|k: int| 0 <= k < i ==> esv[k] is Str,
                            forall|k: int|
                                0 <= k < i ==> (#[trigger] tags@[k])@ == esv[k]->Str_0,
                        decreases es@.len() - i,
                    {
                        match &es[i] {
                            Json::Str(s) => {
                                tags.push(s.clone());
                            }
                            _ => {
                                proof {
                                    assert(!(esv[i as int] is Str));
                                }
                                return None;
                            }
                        }
                        i = i + 1;
                    }
                    proof {
                        assert(all_strs(esv));
                        assert(crate::entry::tags_view(tags@) =~= strs_of(esv));
                    }
                }
                _ => {
                    return None;
                }
            }
            let timestamp = if ms.len() == 6 {
                if !(ms[5].0 == k_timestamp()) {
                    return None;
                }
                match &ms[5].1 {
                    Json::Str(s) => Some(s.clone()),
                    _ => {
                        return None;
                    }
                }
            } else {
                None
            };
            let e = LogEntry { id, content, created_at, source, tags, timestamp };
            proof {
                assert(entry_of_jv(j@) == Some(e@)) by {
                    assert(entry_of_jv(j@)->Some_0 == e@);
                }
            }
            Some(e)
        }
        _ => None,
    }
}

/// The canonical text of a partition.
pub fn encode_partition(entries: &Vec<LogEntry>) -> (s: String)
    ensures
        s@ == encode_partition_spec(eseq(entries@)),
{
    let mut es: Vec<Json> = Vec::new();
    let mut i: usize = 0;
    while i < entries.len()
        invariant
            i <= entries@.len(),
            es@.len() == i,
            forall|k: int| 0 <= k < i ==> jview(#[trigger] es@[k]) == entry_jv(entries@[k]@),
        decreases entries@.len() - i,
    {
        es.push(entry_to_json(&entries[i]));
        i = i + 1;
    }
    let arr = Json::Arr(es);
    proof {
        lemma_jview_composite(arr);
        assert(arr@->Arr_0 =~= partition_jv(eseq(entries@))->Arr_0);
    }
    encode_json(&arr)
}

/// Reads a partition text back into entries.  Fails, with a storage
/// error naming the operation, exactly when the text is not a JSON array
/// of entry objects.
pub fn decode_partition(s: &str) -> (r: Result<Vec<LogEntry>, AppError>)
    ensures
        (match r {
            Ok(v) => decode_partition_spec(s@) == Some(eseq(v@)),
            Err(e) => decode_partition_spec(s@) is None && e matches AppError::StorageError {
                ..
            },
        }),
{
    let parsed = match parse_json_str(s) {
        Some(j) => j,
        None => {
            return Err(decode_error());
        }
    };
    proof {
        lemma_jview_composite(parsed);
    }
    let ghost pv = parsed@;
    match parsed {
        Json::Arr(es) => {
            let ghost esv = jseq(es@);
            let mut out: Vec<LogEntry> = Vec::new();
            let mut i: usize = 0;
            while i < es.len()
                invariant
                    i <= es@.len(),
                    esv == jseq(es@),
                    esv.len() == es@.len(),
                    pv == JsonV::Arr(esv),
                    parse_json(s@) == Some(pv),
                    out@.len() == i,
                    forall|k: int| 0 <= k < i ==> entry_of_jv(#[trigger] esv[k]) is Some,
                    forall|k: int|
                        0 <= k < i ==> (#[trigger] out@[k])@ == entry_of_jv(esv[k])->Some_0,
                decreases es@.len() - i,
            {
                match json_to_entry(&es[i]) {
                    Some(e) => {
                        out.push(e);
                    }
                    None => {
                        proof {
                            assert(entry_of_jv(esv[i as int]) is None);
                            assert(entries_of_jv(pv) is None);
                        }
                        return Err(decode_error());
                    }
                }
                i = i + 1;
            }
            proof {
                assert(entries_of_jv(pv) is Some);
                assert(entries_of_jv(pv)->Some_0 =~= eseq(out@));
            }
            Ok(out)
        }
        _ => Err(decode_error()),
    }
}

/// The error reported for a malformed partition text.
fn decode_error() -> (e: AppError)
    ensures
        e matches AppError::StorageError { .. },
{
    let mut op: Vec<char> = Vec::new();
    op.push('r');
    op.push('e');
    op.push('a');
    op.push('d');
    let mut detail: Vec<char> = Vec::new();
    detail.push('m');
    detail.push('a');
    detail.push('l');
    detail.push('f');
    detail.push('o');
    detail.push('r');
    detail.push('m');
    detail.push('e');
    detail.push('d');
    AppError::StorageError {
        operation: chars_to_string(&op),
        detail: chars_to_string(&detail),
    }
}

/// An entry's JSON object is well formed and holds no number.
pub proof fn lemma_entry_jv_wf(ev: LogEntryV)
    ensures
        wf_json(entry_jv(ev)),
{
    let ms = entry_jv(ev)->Obj_0;
    assert forall|k: int| 0 <= k < ms.len() implies wf_json(#[trigger] ms[k].1) by {
        if k == 4 {
            let ts = tags_jv(ev.tags);
            assert forall|x: int| 0 <= x < ts.len() implies wf_json(#[trigger] ts[x]) by {
                assert(ts[x] is Str);
            }
        }
    }
}

/// Reading back the JSON object of an entry gives the entry.
pub proof fn lemma_entry_round_trip(ev: LogEntryV)
    ensures
        entry_of_jv(entry_jv(ev)) == Some(ev),
{
    let ms = entry_jv(ev)->Obj_0;
    let ts = tags_jv(ev.tags);
    assert(all_strs(ts));
    assert(strs_of(ts) =~= ev.tags);
    assert(entry_of_jv(entry_jv(ev))->Some_0 == ev);
}

/// The round trip on whole partitions: decoding the canonical text of
/// any sequence of entries yields the same entries, field for field.
pub proof fn lemma_partition_round_trip(evs: Seq<LogEntryV>)
    ensures
        decode_partition_spec(encode_partition_spec(evs)) == Some(evs),
{
    let j = partition_jv(evs);
    let inner = j->Arr_0;
    assert(wf_json(j)) by {
        assert forall|k: int| 0 <= k < inner.len() implies wf_json(#[trigger] inner[k]) by {
            lemma_entry_jv_wf(evs[k]);
        }
    }
    lemma_parse_json_enc(j);
    assert forall|k: int| 0 <= k < inner.len() implies entry_of_jv(
        #[trigger] inner[k],
    ) is Some by {
        lemma_entry_round_trip(evs[k]);
    }
    assert(entries_of_jv(j) is Some);
    assert forall|k: int| 0 <= k < inner.len() implies entries_of_jv(j)->Some_0[k] == evs[k] by {
        lemma_entry_round_trip(evs[k]);
    }
    assert(entries_of_jv(j)->Some_0 =~= evs);
}

} // verus!
