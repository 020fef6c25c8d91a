//! Capture: classification, normalization, routing, route correction and
//! local metrics over canonical capture records.

use vstd::prelude::*;
use vstd::relations::sorted_by;
use crate::text::{
    chars_of, chars_trim, chars_trim_end, contains, contains_seq, copy_opt_string, copy_string,
    find_from, first_from, has_prefix, occurs_at, lemma_first_from, normalize_chars, normalized, occurs_from,
    owned, starts_with, str_lowercase, string_of, to_lowercase, trim, trim_end,
};
use crate::decimal::{decimal, u64_decimal};

verus! {

/// Where a capture came from.
#[derive(Debug, Clone, Copy, PartialEq, Eq, Structural)]
pub enum CaptureSource {
    Text,
    Speech,
}

/// Whether a capture was submitted or dismissed.
#[derive(Debug, Clone, Copy, PartialEq, Eq, Structural)]
pub enum CaptureStatus {
    Completed,
    Abandoned,
}

/// What a capture is about.
#[derive(Debug, Clone, Copy, PartialEq, Eq, Structural)]
pub enum CaptureIntent {
    Note,
    Idea,
    Todo,
    WorkUpdate,
    Unknown,
}

/// The canonical record of one capture attempt.
#[derive(Debug, Clone, PartialEq, Eq)]
pub struct CaptureRecord {
    pub id: String,
    pub source: CaptureSource,
    pub status: CaptureStatus,
    pub raw_text: String,
    pub normalized_text: String,
    pub suggested_intent: CaptureIntent,
    pub intent: CaptureIntent,
    pub title: String,
    pub routed_path: Option<String>,
    pub started_at_ms: u64,
    pub completed_at_ms: u64,
    pub correction_count: u32,
}

/// Local usage metrics derived from capture records.
#[derive(Debug, Clone, Copy, PartialEq, Eq, Structural)]
pub struct CaptureMetrics {
    pub total_captures: u64,
    pub completed_captures: u64,
    pub abandoned_captures: u64,
    pub captures_since: u64,
    pub corrected_captures: u64,
    pub correction_rate_basis_points: u32,
    pub median_completion_ms: Option<u64>,
}

/// A capture operation that was refused, with its reason.
#[derive(Debug, Clone, PartialEq, Eq)]
pub struct CaptureError(pub String);

/// The mathematical view of a capture record.
pub struct CaptureRecordView {
    pub id: Seq<char>,
    pub source: CaptureSource,
    pub status: CaptureStatus,
    pub raw_text: Seq<char>,
    pub normalized_text: Seq<char>,
    pub suggested_intent: CaptureIntent,
    pub intent: CaptureIntent,
    pub title: Seq<char>,
    pub routed_path: Option<Seq<char>>,
    pub started_at_ms: u64,
    pub completed_at_ms: u64,
    pub correction_count: u32,
}

/// The view of an optional string.
pub open spec fn opt_text(o: Option<String>) -> Option<Seq<char>> {
    match o {
        Some(s) => Some(s@),
        None => None,
    }
}

impl View for CaptureRecord {
    type V = CaptureRecordView;

    open spec fn view(&self) -> CaptureRecordView {
        CaptureRecordView {
            id: self.id@,
            source: self.source,
            status: self.status,
            raw_text: self.raw_text@,
            normalized_text: self.normalized_text@,
            suggested_intent: self.suggested_intent,
            intent: self.intent,
            title: self.title@,
            routed_path: opt_text(self.routed_path),
            started_at_ms: self.started_at_ms,
            completed_at_ms: self.completed_at_ms,
            correction_count: self.correction_count,
        }
    }
}

/// An exact copy of a capture record.
pub fn copy_capture(r: &CaptureRecord) -> (c: CaptureRecord)
    ensures
        c@ == r@,
{
    CaptureRecord {
        id: copy_string(&r.id),
        source: r.source,
        status: r.status,
        raw_text: copy_string(&r.raw_text),
        normalized_text: copy_string(&r.normalized_text),
        suggested_intent: r.suggested_intent,
        intent: r.intent,
        title: copy_string(&r.title),
        routed_path: copy_opt_string(&r.routed_path),
        started_at_ms: r.started_at_ms,
        completed_at_ms: r.completed_at_ms,
        correction_count: r.correction_count,
    }
}

// ---------------------------------------------------------------------------
// Text
// ---------------------------------------------------------------------------

/// Whitespace-normalized text: the words of `value` joined by single spaces.
pub fn normalize(value: &str) -> (r: String)
    ensures
        r@ == normalized(value@),
{
    let chars = chars_of(value);
    let n = normalize_chars(&chars);
    string_of(&n)
}

/// The title of a capture: the first 80 characters of its normalized text, or
/// `Untitled capture` when that is empty.
pub open spec fn title_of(value: Seq<char>) -> Seq<char> {
    let n = normalized(value);
    if n.len() == 0 {
        "Untitled capture"@
    } else if n.len() <= 80 {
        n
    } else {
        n.subrange(0, 80)
    }
}

/// The title of a capture.
pub fn title(value: &str) -> (r: String)
    ensures
        r@ == title_of(value@),
{
    let chars = chars_of(value);
    let n = normalize_chars(&chars);
    if n.len() == 0 {
        return owned("Untitled capture");
    }
    let mut t: Vec<char> = Vec::new();
    let mut i: usize = 0;
    while i < n.len() && i < 80
        invariant
            i <= n.len(),
            i <= 80,
            t@ == n@.subrange(0, i as int),
        decreases n.len() - i,
    {
        t.push(n[i]);
        assert(n@.subrange(0, i + 1) =~= n@.subrange(0, i as int).push(n@[i as int]));
        i = i + 1;
    }
    assert(n@.len() <= 80 ==> n@.subrange(0, n@.len() as int) =~= n@);
    string_of(&t)
}

// ---------------------------------------------------------------------------
// Classification
// ---------------------------------------------------------------------------

/// The intent suggested for already-lowercased, trimmed text: a small set of
/// English and Traditional Chinese prefixes, checked in this order.
pub open spec fn intent_for_lowercased(v: Seq<char>) -> CaptureIntent {
    if has_prefix(v, "todo "@) || has_prefix(v, "todo:"@) || has_prefix(v, "remember to "@)
        || has_prefix(v, "need to "@) || has_prefix(v, "待辦"@) || has_prefix(v, "記得"@)
        || has_prefix(v, "要做"@) {
        CaptureIntent::Todo
    } else if has_prefix(v, "idea "@) || has_prefix(v, "idea:"@) || has_prefix(v, "maybe "@)
        || has_prefix(v, "想法"@) || has_prefix(v, "點子"@) {
        CaptureIntent::Idea
    } else if has_prefix(v, "working on "@) || has_prefix(v, "blocked "@) || has_prefix(
        v,
        "blocked:"@,
    ) || has_prefix(v, "finished "@) || has_prefix(v, "目前"@) || has_prefix(v, "進度"@)
        || has_prefix(v, "卡住"@) || has_prefix(v, "完成"@) {
        CaptureIntent::WorkUpdate
    } else {
        CaptureIntent::Note
    }
}

/// The prefixes that mark a capture as a task.
pub open spec fn task_prefixes() -> Seq<Seq<char>> {
    seq!["todo "@, "todo:"@, "remember to "@, "need to "@, "待辦"@, "記得"@, "要做"@]
}

/// The prefixes that mark a capture as an idea.
pub open spec fn idea_prefixes() -> Seq<Seq<char>> {
    seq!["idea "@, "idea:"@, "maybe "@, "想法"@, "點子"@]
}

/// The prefixes that mark a capture as a work update.
pub open spec fn work_update_prefixes() -> Seq<Seq<char>> {
    seq!["working on "@, "blocked "@, "blocked:"@, "finished "@, "目前"@, "進度"@, "卡住"@, "完成"@]
}

/// `v` starts with one of `prefixes`.
pub open spec fn starts_with_one_of(v: Seq<char>, prefixes: Seq<Seq<char>>) -> bool {
    exists|i: int| 0 <= i < prefixes.len() && has_prefix(v, #[trigger] prefixes[i])
}

/// Classification of trimmed, lowercased text: a task prefix makes a task;
/// otherwise an idea prefix makes an idea; otherwise a work-update prefix
/// makes a work update; any other text is a note. `classify` applies this to
/// the trimmed, lowercased text it is given.
pub proof fn law_classification_follows_the_prefix_lists(v: Seq<char>)
    ensures
        starts_with_one_of(v, task_prefixes()) ==> intent_for_lowercased(v) == CaptureIntent::Todo,
        !starts_with_one_of(v, task_prefixes()) && starts_with_one_of(v, idea_prefixes())
            ==> intent_for_lowercased(v) == CaptureIntent::Idea,
        !starts_with_one_of(v, task_prefixes()) && !starts_with_one_of(v, idea_prefixes())
            && starts_with_one_of(v, work_update_prefixes()) ==> intent_for_lowercased(v)
            == CaptureIntent::WorkUpdate,
        !starts_with_one_of(v, task_prefixes()) && !starts_with_one_of(v, idea_prefixes())
            && !starts_with_one_of(v, work_update_prefixes()) ==> intent_for_lowercased(v)
            == CaptureIntent::Note,
{
    assert(task_prefixes()[0] == "todo "@);
    assert(task_prefixes()[1] == "todo:"@);
    assert(task_prefixes()[2] == "remember to "@);
    assert(task_prefixes()[3] == "need to "@);
    assert(task_prefixes()[4] == "待辦"@);
    assert(task_prefixes()[5] == "記得"@);
    assert(task_prefixes()[6] == "要做"@);
    assert(idea_prefixes()[0] == "idea "@);
    assert(idea_prefixes()[1] == "idea:"@);
    assert(idea_prefixes()[2] == "maybe "@);
    assert(idea_prefixes()[3] == "想法"@);
    assert(idea_prefixes()[4] == "點子"@);
    assert(work_update_prefixes()[0] == "working on "@);
    assert(work_update_prefixes()[1] == "blocked "@);
    assert(work_update_prefixes()[2] == "blocked:"@);
    assert(work_update_prefixes()[3] == "finished "@);
    assert(work_update_prefixes()[4] == "目前"@);
    assert(work_update_prefixes()[5] == "進度"@);
    assert(work_update_prefixes()[6] == "卡住"@);
    assert(work_update_prefixes()[7] == "完成"@);
}

/// The intent of text that is already trimmed and lowercased.
pub fn classify_lowercased(value: &str) -> (r: CaptureIntent)
    ensures
        r == intent_for_lowercased(value@),
{
    let v = chars_of(value);
    if starts_with(&v, "todo ") || starts_with(&v, "todo:") || starts_with(&v, "remember to ")
        || starts_with(&v, "need to ") || starts_with(&v, "待辦") || starts_with(&v, "記得")
        || starts_with(&v, "要做") {
        CaptureIntent::Todo
    } else if starts_with(&v, "idea ") || starts_with(&v, "idea:") || starts_with(&v, "maybe ")
        || starts_with(&v, "想法") || starts_with(&v, "點子") {
        CaptureIntent::Idea
    } else if starts_with(&v, "working on ") || starts_with(&v, "blocked ") || starts_with(
        &v,
        "blocked:",
    ) || starts_with(&v, "finished ") || starts_with(&v, "目前") || starts_with(&v, "進度")
        || starts_with(&v, "卡住") || starts_with(&v, "完成") {
        CaptureIntent::WorkUpdate
    } else {
        CaptureIntent::Note
    }
}

/// The intent the fast classifier suggests for `text`: trim it, lowercase it,
/// and match the prefixes of `intent_for_lowercased`.
pub fn classify(text: &str) -> (r: CaptureIntent)
    ensures
        r == intent_for_lowercased(str_lowercase(trim(text@))),
{
    let chars = chars_of(text);
    let trimmed = string_of(&chars_trim(&chars));
    let lowered = to_lowercase(trimmed.as_str());
    classify_lowercased(lowered.as_str())
}


// ---------------------------------------------------------------------------
// IDs and paths
// ---------------------------------------------------------------------------

/// An ASCII letter or digit, or `-`.
pub open spec fn is_id_char(c: char) -> bool {
    ('a' <= c && c <= 'z') || ('A' <= c && c <= 'Z') || ('0' <= c && c <= '9') || c == '-'
}

/// A capture ID is non-empty and made of ASCII letters, digits and `-`, so it
/// can never name a path outside `captures/`.
pub open spec fn valid_capture_id(s: Seq<char>) -> bool {
    s.len() > 0 && forall|i: int| 0 <= i < s.len() ==> is_id_char(#[trigger] s[i])
}

/// Accepts only safe capture IDs.
pub fn validate_capture_id(value: &str) -> (r: Result<(), CaptureError>)
    ensures
        r is Ok <==> valid_capture_id(value@),
        r matches Err(e) ==> e.0@ == "Invalid capture ID"@,
{
    let v = chars_of(value);
    if v.len() == 0 {
        return Err(CaptureError(owned("Invalid capture ID")));
    }
    let mut i: usize = 0;
    while i < v.len()
        invariant
            i <= v.len(),
            v@ == value@,
            forall|j: int| 0 <= j < i ==> is_id_char(#[trigger] v@[j]),
        decreases v.len() - i,
    {
        let c = v[i];
        if !(('a' <= c && c <= 'z') || ('A' <= c && c <= 'Z') || ('0' <= c && c <= '9') || c == '-') {
            return Err(CaptureError(owned("Invalid capture ID")));
        }
        i = i + 1;
    }
    Ok(())
}

/// The ID of a capture completed at `timestamp_ms`: `capture-<ms>-<pid>-<n>`.
pub open spec fn capture_id_text(timestamp_ms: u64, process_id: u32, sequence: u64) -> Seq<char> {
    "capture-"@ + decimal(timestamp_ms as nat) + "-"@ + decimal(process_id as nat) + "-"@ + decimal(
        sequence as nat,
    )
}

/// Formats a capture ID.
pub fn capture_id(timestamp_ms: u64, process_id: u32, sequence: u64) -> (r: String)
    ensures
        r@ == capture_id_text(timestamp_ms, process_id, sequence),
{
    let mut s = owned("capture-");
    s.append(string_of(&u64_decimal(timestamp_ms)).as_str());
    s.append("-");
    s.append(string_of(&u64_decimal(process_id as u64)).as_str());
    s.append("-");
    s.append(string_of(&u64_decimal(sequence)).as_str());
    s
}

/// Where the canonical record of a capture is stored.
pub open spec fn record_path_text(capture_id: Seq<char>) -> Seq<char> {
    "captures/"@ + capture_id + ".json"@
}

/// `captures/<id>.json`.
pub fn record_path(capture_id: &str) -> (r: String)
    ensures
        r@ == record_path_text(capture_id@),
{
    let mut s = owned("captures/");
    s.append(capture_id);
    s.append(".json");
    s
}

/// Where a capture with `intent` is routed: its own note or task file, or a
/// marked entry in `STATUS.md` or `INBOX.md`.
pub open spec fn route_path_text(intent: CaptureIntent, capture_id: Seq<char>) -> Seq<char> {
    match intent {
        CaptureIntent::Note | CaptureIntent::Idea => "notes/"@ + capture_id + ".md"@,
        CaptureIntent::Todo => "tasks/"@ + capture_id + ".md"@,
        CaptureIntent::WorkUpdate => "STATUS.md"@,
        CaptureIntent::Unknown => "INBOX.md"@,
    }
}

/// The route of a capture.
pub fn route_path(intent: CaptureIntent, capture_id: &str) -> (r: String)
    ensures
        r@ == route_path_text(intent, capture_id@),
{
    match intent {
        CaptureIntent::Note | CaptureIntent::Idea => {
            let mut s = owned("notes/");
            s.append(capture_id);
            s.append(".md");
            s
        },
        CaptureIntent::Todo => {
            let mut s = owned("tasks/");
            s.append(capture_id);
            s.append(".md");
            s
        },
        CaptureIntent::WorkUpdate => owned("STATUS.md"),
        CaptureIntent::Unknown => owned("INBOX.md"),
    }
}

/// The section heading under which a marked entry is written, for the intents
/// that route to a shared file.
pub open spec fn heading_text(intent: CaptureIntent) -> Option<Seq<char>> {
    match intent {
        CaptureIntent::WorkUpdate => Some("## Captured work updates"@),
        CaptureIntent::Unknown => Some("## Captured items"@),
        _ => None,
    }
}

/// The section heading of a marker route.
pub fn route_heading(intent: CaptureIntent) -> (r: Option<String>)
    ensures
        opt_text(r) == heading_text(intent),
{
    match intent {
        CaptureIntent::WorkUpdate => Some(owned("## Captured work updates")),
        CaptureIntent::Unknown => Some(owned("## Captured items")),
        _ => None,
    }
}

/// The workspace event that routing a capture records.
pub open spec fn route_event_text(intent: CaptureIntent) -> Seq<char> {
    match intent {
        CaptureIntent::Todo => "task.created"@,
        CaptureIntent::WorkUpdate => "state.updated"@,
        _ => "capture.routed"@,
    }
}

/// The event kind recorded when a capture is routed.
pub fn route_event_kind(intent: CaptureIntent) -> (r: String)
    ensures
        r@ == route_event_text(intent),
{
    match intent {
        CaptureIntent::Todo => owned("task.created"),
        CaptureIntent::WorkUpdate => owned("state.updated"),
        _ => owned("capture.routed"),
    }
}

// ---------------------------------------------------------------------------
// Artifacts
// ---------------------------------------------------------------------------

/// The name an intent is printed with.
pub open spec fn intent_name(intent: CaptureIntent) -> Seq<char> {
    match intent {
        CaptureIntent::Note => "Note"@,
        CaptureIntent::Idea => "Idea"@,
        CaptureIntent::Todo => "Todo"@,
        CaptureIntent::WorkUpdate => "WorkUpdate"@,
        CaptureIntent::Unknown => "Unknown"@,
    }
}

/// The name a source is printed with.
pub open spec fn source_name(source: CaptureSource) -> Seq<char> {
    match source {
        CaptureSource::Text => "Text"@,
        CaptureSource::Speech => "Speech"@,
    }
}

fn intent_label(intent: CaptureIntent) -> (r: &'static str)
    ensures
        r@ == intent_name(intent),
{
    match intent {
        CaptureIntent::Note => "Note",
        CaptureIntent::Idea => "Idea",
        CaptureIntent::Todo => "Todo",
        CaptureIntent::WorkUpdate => "WorkUpdate",
        CaptureIntent::Unknown => "Unknown",
    }
}

fn source_label(source: CaptureSource) -> (r: &'static str)
    ensures
        r@ == source_name(source),
{
    match source {
        CaptureSource::Text => "Text",
        CaptureSource::Speech => "Speech",
    }
}

/// The Markdown file of a note, idea or task capture: title, capture ID,
/// intent, source, then the raw text.
pub open spec fn markdown_text(r: CaptureRecordView) -> Seq<char> {
    "# "@ + r.title + "\n\n- Capture: `"@ + r.id + "`\n- Intent: `"@ + intent_name(r.intent)
        + "`\n- Source: `"@ + source_name(r.source) + "`\n\n"@ + r.raw_text + "\n"@
}

/// The Markdown file of a capture.
pub fn capture_markdown(record: &CaptureRecord) -> (r: String)
    ensures
        r@ == markdown_text(record@),
{
    let mut s = owned("# ");
    s.append(record.title.as_str());
    s.append("\n\n- Capture: `");
    s.append(record.id.as_str());
    s.append("`\n- Intent: `");
    s.append(intent_label(record.intent));
    s.append("`\n- Source: `");
    s.append(source_label(record.source));
    s.append("`\n\n");
    s.append(record.raw_text.as_str());
    s.append("\n");
    s
}

/// The opening marker of a capture's entry.
pub open spec fn marker_start(capture_id: Seq<char>) -> Seq<char> {
    "<!-- vela:capture:"@ + capture_id + ":start -->"@
}

/// The closing marker of a capture's entry.
pub open spec fn marker_end(capture_id: Seq<char>) -> Seq<char> {
    "<!-- vela:capture:"@ + capture_id + ":end -->"@
}

/// The trimmed content, followed by the heading when the content lacks it.
pub open spec fn marker_base(content: Seq<char>, heading: Seq<char>) -> Seq<char> {
    let value = trim_end(content);
    if contains_seq(value, heading) {
        value
    } else {
        value + "\n\n"@ + heading
    }
}

/// A shared file with a capture's marked entry appended under `heading`.
pub open spec fn with_marker(content: Seq<char>, heading: Seq<char>, capture_id: Seq<char>, text: Seq<char>) -> Seq<
    char,
> {
    marker_base(content, heading) + "\n\n"@ + marker_start(capture_id) + "\n- "@ + text + "\n"@
        + marker_end(capture_id) + "\n"@
}

/// Appends the marked entry of `record` (its normalized text) under `heading`.
pub fn add_marker(content: &str, heading: &str, record: &CaptureRecord) -> (r: String)
    ensures
        r@ == with_marker(content@, heading@, record.id@, record.normalized_text@),
{
    let c = chars_of(content);
    let trimmed = chars_trim_end(&c);
    let h = chars_of(heading);
    let mut value = string_of(&trimmed);
    if !contains(&trimmed, &h) {
        value.append("\n\n");
        value.append(heading);
    }
    assert(value@ == marker_base(content@, heading@));
    value.append("\n\n");
    value.append("<!-- vela:capture:");
    value.append(record.id.as_str());
    value.append(":start -->");
    value.append("\n- ");
    value.append(record.normalized_text.as_str());
    value.append("\n");
    value.append("<!-- vela:capture:");
    value.append(record.id.as_str());
    value.append(":end -->");
    value.append("\n");
    proof {
        assert(value@ =~= with_marker(content@, heading@, record.id@, record.normalized_text@));
    }
    value
}


/// A shared file with a capture's marked entry removed: from the first opening
/// marker through the first closing marker after it, and one newline after
/// that. Without both markers the content is unchanged.
pub open spec fn without_marker(content: Seq<char>, capture_id: Seq<char>) -> Seq<char> {
    let start = marker_start(capture_id);
    let end = marker_end(capture_id);
    if !occurs_from(content, start, 0) {
        content
    } else {
        let s = first_from(content, start, 0);
        if !occurs_from(content, end, s) {
            content
        } else {
            let e0 = first_from(content, end, s) + end.len();
            let e = if e0 < content.len() && content[e0] == '\n' {
                e0 + 1
            } else {
                e0
            };
            content.subrange(0, s) + content.subrange(e, content.len() as int)
        }
    }
}

/// Removes a capture's marked entry from a shared file.
pub fn remove_marker(content: &str, capture_id: &str) -> (r: String)
    ensures
        r@ == without_marker(content@, capture_id@),
{
    let c = chars_of(content);
    let mut start = owned("<!-- vela:capture:");
    start.append(capture_id);
    start.append(":start -->");
    let mut end = owned("<!-- vela:capture:");
    end.append(capture_id);
    end.append(":end -->");
    let sv = chars_of(start.as_str());
    let ev = chars_of(end.as_str());
    let s = match find_from(&c, &sv, 0) {
        None => {
            return owned(content);
        },
        Some(s) => s,
    };
    proof {
        lemma_first_from(c@, sv@, 0, s as int);
    }
    let e_start = match find_from(&c, &ev, s) {
        None => {
            return owned(content);
        },
        Some(e) => e,
    };
    proof {
        lemma_first_from(c@, ev@, s as int, e_start as int);
        assert(occurs_at(c@, ev@, e_start as int));
        assert(e_start + ev@.len() <= c@.len());
        assert(e_start + ev.len() <= c.len());
    }
    let mut e = e_start + ev.len();
    if e < c.len() && c[e] == '\n' {
        e = e + 1;
    }
    let mut out: Vec<char> = Vec::new();
    let mut i: usize = 0;
    while i < s
        invariant
            i <= s,
            s <= c.len(),
            out@ == c@.subrange(0, i as int),
        decreases s - i,
    {
        out.push(c[i]);
        assert(c@.subrange(0, i + 1) =~= c@.subrange(0, i as int).push(c@[i as int]));
        i = i + 1;
    }
    let mut j: usize = e;
    while j < c.len()
        invariant
            s <= c.len(),
            e <= j <= c.len(),
            out@ == c@.subrange(0, s as int) + c@.subrange(e as int, j as int),
        decreases c.len() - j,
    {
        out.push(c[j]);
        assert(c@.subrange(e as int, j + 1) =~= c@.subrange(e as int, j as int).push(c@[j as int]));
        j = j + 1;
    }
    string_of(&out)
}


// ---------------------------------------------------------------------------
// Capture operations
// ---------------------------------------------------------------------------

/// The record of a submitted capture: raw and normalized text, the suggested
/// intent, the chosen intent (the selected one, else the suggestion), title,
/// route, and a start time no later than its completion.
pub open spec fn completed_record(
    source: CaptureSource,
    raw_text: Seq<char>,
    selected: Option<CaptureIntent>,
    started_at_ms: u64,
    completed_at_ms: u64,
    id: Seq<char>,
) -> CaptureRecordView {
    let normalized_text = normalized(raw_text);
    let suggested = intent_for_lowercased(str_lowercase(trim(normalized_text)));
    let intent = match selected {
        Some(i) => i,
        None => suggested,
    };
    CaptureRecordView {
        id,
        source,
        status: CaptureStatus::Completed,
        raw_text,
        normalized_text,
        suggested_intent: suggested,
        intent,
        title: title_of(raw_text),
        routed_path: Some(route_path_text(intent, id)),
        started_at_ms: if started_at_ms <= completed_at_ms {
            started_at_ms
        } else {
            completed_at_ms
        },
        completed_at_ms,
        correction_count: 0,
    }
}

/// The record of a dismissed capture: its text is kept, nothing is routed.
pub open spec fn abandoned_record(
    source: CaptureSource,
    raw_text: Seq<char>,
    started_at_ms: u64,
    completed_at_ms: u64,
    id: Seq<char>,
) -> CaptureRecordView {
    CaptureRecordView {
        id,
        source,
        status: CaptureStatus::Abandoned,
        raw_text,
        normalized_text: normalized(raw_text),
        suggested_intent: CaptureIntent::Unknown,
        intent: CaptureIntent::Unknown,
        title: title_of(raw_text),
        routed_path: None,
        started_at_ms: if started_at_ms <= completed_at_ms {
            started_at_ms
        } else {
            completed_at_ms
        },
        completed_at_ms,
        correction_count: 0,
    }
}

/// A record moved to another intent: one more correction and the new route;
/// the raw text and the original suggestion stay.
pub open spec fn corrected_record(r: CaptureRecordView, intent: CaptureIntent) -> CaptureRecordView {
    CaptureRecordView {
        intent,
        correction_count: (r.correction_count + 1) as u32,
        routed_path: Some(route_path_text(intent, r.id)),
        ..r
    }
}

/// The outcome of a correction: the record to store, the route to clean up,
/// and whether anything changed at all.
#[derive(Debug, Clone)]
pub struct CaptureCorrection {
    pub record: CaptureRecord,
    pub previous_route: Option<String>,
    pub changed: bool,
}

/// Capture operations. The workspace writes that follow them (the routed
/// artifact, the canonical record, the events) are carried out by the caller.
pub struct CaptureEngine;

impl CaptureEngine {
    /// A submitted capture. Text that is empty after whitespace normalization
    /// is refused.
    pub fn create(
        source: CaptureSource,
        raw_text: &str,
        selected_intent: Option<CaptureIntent>,
        started_at_ms: u64,
        completed_at_ms: u64,
        capture_id: String,
    ) -> (r: Result<CaptureRecord, CaptureError>)
        ensures
            r is Err <==> normalized(raw_text@).len() == 0,
            r matches Err(e) ==> e.0@ == "Capture text cannot be empty"@,
            r matches Ok(record) ==> record@ == completed_record(
                source,
                raw_text@,
                selected_intent,
                started_at_ms,
                completed_at_ms,
                capture_id@,
            ),
    {
        let normalized_text = normalize(raw_text);
        if normalized_text.as_str().unicode_len() == 0 {
            return Err(CaptureError(owned("Capture text cannot be empty")));
        }
        let suggested_intent = classify(normalized_text.as_str());
        let intent = match selected_intent {
            Some(i) => i,
            None => suggested_intent,
        };
        let routed = route_path(intent, capture_id.as_str());
        let record = CaptureRecord {
            id: capture_id,
            source,
            status: CaptureStatus::Completed,
            raw_text: owned(raw_text),
            normalized_text,
            suggested_intent,
            intent,
            title: title(raw_text),
            routed_path: Some(routed),
            started_at_ms: if started_at_ms <= completed_at_ms {
                started_at_ms
            } else {
                completed_at_ms
            },
            completed_at_ms,
            correction_count: 0,
        };
        Ok(record)
    }

    /// A dismissed capture, kept so that its text is not lost.
    pub fn abandon(
        source: CaptureSource,
        raw_text: &str,
        started_at_ms: u64,
        completed_at_ms: u64,
        capture_id: String,
    ) -> (r: CaptureRecord)
        ensures
            r@ == abandoned_record(source, raw_text@, started_at_ms, completed_at_ms, capture_id@),
    {
        CaptureRecord {
            id: capture_id,
            source,
            status: CaptureStatus::Abandoned,
            raw_text: owned(raw_text),
            normalized_text: normalize(raw_text),
            suggested_intent: CaptureIntent::Unknown,
            intent: CaptureIntent::Unknown,
            title: title(raw_text),
            routed_path: None,
            started_at_ms: if started_at_ms <= completed_at_ms {
                started_at_ms
            } else {
                completed_at_ms
            },
            completed_at_ms,
            correction_count: 0,
        }
    }

    /// Moves a completed capture to another intent. Abandoned captures cannot
    /// be routed; choosing the current intent changes nothing.
    pub fn correct(record: CaptureRecord, intent: CaptureIntent) -> (r: Result<
        CaptureCorrection,
        CaptureError,
    >)
        requires
            record.correction_count < u32::MAX,
        ensures
            r is Err <==> record.status != CaptureStatus::Completed,
            r matches Err(e) ==> e.0@ == "An abandoned capture cannot be routed"@,
            r matches Ok(c) ==> if record.intent == intent {
                &&& c.record@ == record@
                &&& !c.changed
                &&& c.previous_route is None
            } else {
                &&& c.record@ == corrected_record(record@, intent)
                &&& c.changed
                &&& opt_text(c.previous_route) == record@.routed_path
            },
    {
        if record.status != CaptureStatus::Completed {
            return Err(CaptureError(owned("An abandoned capture cannot be routed")));
        }
        if record.intent == intent {
            return Ok(CaptureCorrection { record, previous_route: None, changed: false });
        }
        let previous_route = copy_opt_string(&record.routed_path);
        let routed = route_path(intent, record.id.as_str());
        let corrected = CaptureRecord {
            intent,
            correction_count: record.correction_count + 1,
            routed_path: Some(routed),
            ..record
        };
        Ok(CaptureCorrection { record: corrected, previous_route, changed: true })
    }
}


// ---------------------------------------------------------------------------
// Listing and metrics
// ---------------------------------------------------------------------------

/// The views of a list of records.
pub open spec fn views(s: Seq<CaptureRecord>) -> Seq<CaptureRecordView> {
    s.map_values(|r: CaptureRecord| r@)
}

/// Newest first: completion times never increase along `s`.
pub open spec fn newest_first(s: Seq<CaptureRecordView>) -> bool {
    forall|i: int, j: int| 0 <= i < j < s.len() ==> s[j].completed_at_ms <= s[i].completed_at_ms
}

/// `limit` clamped to 1..=500.
pub open spec fn clamp_limit(limit: usize) -> int {
    if limit < 1 {
        1
    } else if limit > 500 {
        500
    } else {
        limit as int
    }
}

/// How many records `list` returns.
pub open spec fn listed_count(n: int, limit: usize) -> int {
    if n < clamp_limit(limit) {
        n
    } else {
        clamp_limit(limit)
    }
}

/// How many records have `status`.
pub open spec fn count_status(s: Seq<CaptureRecord>, status: CaptureStatus) -> nat
    decreases s.len(),
{
    if s.len() == 0 {
        0
    } else {
        count_status(s.drop_last(), status) + if s.last().status == status {
            1nat
        } else {
            0nat
        }
    }
}

/// How many records completed (or were abandoned) at or after `since_ms`.
pub open spec fn count_since(s: Seq<CaptureRecord>, since_ms: u64) -> nat
    decreases s.len(),
{
    if s.len() == 0 {
        0
    } else {
        count_since(s.drop_last(), since_ms) + if s.last().completed_at_ms >= since_ms {
            1nat
        } else {
            0nat
        }
    }
}

/// How many completed records were corrected at least once.
pub open spec fn count_corrected(s: Seq<CaptureRecord>) -> nat
    decreases s.len(),
{
    if s.len() == 0 {
        0
    } else {
        count_corrected(s.drop_last()) + if s.last().status == CaptureStatus::Completed
            && s.last().correction_count > 0 {
            1nat
        } else {
            0nat
        }
    }
}

/// The completion time of a record: completion minus start, never negative.
pub open spec fn duration_of(r: CaptureRecord) -> u64 {
    if r.completed_at_ms >= r.started_at_ms {
        (r.completed_at_ms - r.started_at_ms) as u64
    } else {
        0
    }
}

/// The completion times of the completed records, in record order.
pub open spec fn durations(s: Seq<CaptureRecord>) -> Seq<u64>
    decreases s.len(),
{
    if s.len() == 0 {
        Seq::empty()
    } else if s.last().status == CaptureStatus::Completed {
        durations(s.drop_last()).push(duration_of(s.last()))
    } else {
        durations(s.drop_last())
    }
}

/// Numeric order on completion times.
pub open spec fn ms_leq() -> spec_fn(u64, u64) -> bool {
    |a: u64, b: u64| a <= b
}

/// The metrics of a list of records: counts by status, since a time and of
/// corrections; the correction rate among completed captures in basis points;
/// and the median completion time, the upper middle one of the sorted times.
pub open spec fn metrics_of(s: Seq<CaptureRecord>, since_ms: u64) -> CaptureMetrics {
    let completed = count_status(s, CaptureStatus::Completed);
    let corrected = count_corrected(s);
    let d = durations(s);
    CaptureMetrics {
        total_captures: s.len() as u64,
        completed_captures: completed as u64,
        abandoned_captures: count_status(s, CaptureStatus::Abandoned) as u64,
        captures_since: count_since(s, since_ms) as u64,
        corrected_captures: corrected as u64,
        correction_rate_basis_points: if completed == 0 {
            0
        } else {
            (corrected * 10000 / completed) as u32
        },
        median_completion_ms: if d.len() == 0 {
            None
        } else {
            Some(d.sort_by(ms_leq())[(d.len() / 2) as int])
        },
    }
}

proof fn lemma_counts_bounded(s: Seq<CaptureRecord>, since_ms: u64)
    ensures
        count_corrected(s) <= count_status(s, CaptureStatus::Completed),
        count_status(s, CaptureStatus::Completed) <= s.len(),
        count_status(s, CaptureStatus::Abandoned) <= s.len(),
        count_since(s, since_ms) <= s.len(),
        durations(s).len() == count_status(s, CaptureStatus::Completed),
    decreases s.len(),
{
    if s.len() > 0 {
        lemma_counts_bounded(s.drop_last(), since_ms);
    }
}

proof fn lemma_ms_leq_total()
    ensures
        vstd::relations::total_ordering(ms_leq()),
{
}

proof fn lemma_insert_keeps_sorted(before: Seq<u64>, k: int, x: u64)
    requires
        sorted_by(before, ms_leq()),
        0 <= k <= before.len(),
        forall|j: int| 0 <= j < k ==> before[j] <= x,
        k < before.len() ==> before[k] > x,
    ensures
        sorted_by(before.insert(k, x), ms_leq()),
{
    let after = before.insert(k, x);
    assert forall|a: int, b: int| 0 <= a < b < after.len() implies #[trigger] ms_leq()(after[a], after[b]) by {
        if b < k {
            assert(ms_leq()(before[a], before[b]));
        } else if b == k {
            assert(after[a] == before[a]);
        } else if a == k {
            assert(after[b] == before[b - 1]);
            if b - 1 > k {
                assert(ms_leq()(before[k], before[b - 1]));
            }
        } else if a < k {
            assert(after[b] == before[b - 1]);
            assert(ms_leq()(before[a], before[b - 1]));
        } else {
            assert(after[a] == before[a - 1]);
            assert(after[b] == before[b - 1]);
            assert(ms_leq()(before[a - 1], before[b - 1]));
        }
    }
}

/// Sorts completion times in increasing order.
fn sort_durations(v: &mut Vec<u64>)
    ensures
        final(v)@.to_multiset() == old(v)@.to_multiset(),
        sorted_by(final(v)@, ms_leq()),
{
    broadcast use vstd::seq_lib::group_to_multiset_ensures;

    let ghost original = v@;
    let mut sorted: Vec<u64> = Vec::new();
    let mut i: usize = 0;
    while i < v.len()
        invariant
            i <= v.len(),
            v@ == original,
            sorted@.to_multiset() == original.subrange(0, i as int).to_multiset(),
            sorted_by(sorted@, ms_leq()),
        decreases v.len() - i,
    {
        let x = v[i];
        let mut k: usize = 0;
        while k < sorted.len() && sorted[k] <= x
            invariant
                k <= sorted.len(),
                forall|j: int| 0 <= j < k ==> sorted@[j] <= x,
            decreases sorted.len() - k,
        {
            k = k + 1;
        }
        let ghost before = sorted@;
        sorted.insert(k, x);
        proof {
            assert(original.subrange(0, i + 1) =~= original.subrange(0, i as int).push(x));
            assert(sorted@ =~= before.insert(k as int, x));
            before.insert_ensures(k as int, x);
            vstd::seq_lib::to_multiset_insert(before, k as int, x);
            vstd::seq_lib::to_multiset_build(original.subrange(0, i as int), x);
            if k < before.len() {
                assert(!(before[k as int] <= x));
            }
            lemma_insert_keeps_sorted(before, k as int, x);
        }
        i = i + 1;
    }
    assert(original.subrange(0, original.len() as int) =~= original);
    *v = sorted;
}

impl CaptureEngine {
    /// The newest records first, at most `limit` of them with `limit` clamped
    /// to 1..=500: the first entries of a newest-first ordering of all records.
    pub fn list(records: Vec<CaptureRecord>, limit: usize) -> (r: Vec<CaptureRecord>)
        ensures
            exists|all: Seq<CaptureRecordView>|
                #![auto]
                all.to_multiset() == views(records@).to_multiset() && newest_first(all)
                    && views(r@) == all.subrange(0, listed_count(records@.len() as int, limit)),
    {
        broadcast use vstd::seq_lib::group_to_multiset_ensures;

        let ghost input = views(records@);
        let mut ordered: Vec<CaptureRecord> = Vec::new();
        let mut i: usize = 0;
        while i < records.len()
            invariant
                i <= records.len(),
                input == views(records@),
                views(ordered@).to_multiset() == input.subrange(0, i as int).to_multiset(),
                newest_first(views(ordered@)),
            decreases records.len() - i,
        {
            let x = copy_capture(&records[i]);
            let mut k: usize = 0;
            while k < ordered.len() && ordered[k].completed_at_ms > x.completed_at_ms
                invariant
                    k <= ordered.len(),
                    forall|j: int| 0 <= j < k ==> views(ordered@)[j].completed_at_ms > x.completed_at_ms,
                decreases ordered.len() - k,
            {
                k = k + 1;
            }
            let ghost before = views(ordered@);
            let ghost xv = x@;
            ordered.insert(k, x);
            proof {
                assert(views(ordered@) =~= before.insert(k as int, xv));
                assert(input.subrange(0, i + 1) =~= input.subrange(0, i as int).push(xv));
                vstd::seq_lib::to_multiset_insert(before, k as int, xv);
                vstd::seq_lib::to_multiset_build(input.subrange(0, i as int), xv);
                let after = views(ordered@);
                assert forall|a: int, b: int| 0 <= a < b < after.len() implies after[b].completed_at_ms <= after[a].completed_at_ms by {
                    if b < k {
                    } else if b == k {
                        assert(after[a] == before[a]);
                    } else if a == k {
                        assert(after[b] == before[b - 1]);
                        if k < before.len() {
                            assert(!(before[k as int].completed_at_ms > xv.completed_at_ms));
                            if b - 1 > k {
                                assert(before[b - 1].completed_at_ms <= before[k as int].completed_at_ms);
                            }
                        }
                    } else if a < k {
                        assert(after[b] == before[b - 1]);
                    } else {
                        assert(after[a] == before[a - 1]);
                        assert(after[b] == before[b - 1]);
                    }
                }
            }
            i = i + 1;
        }
        assert(input.subrange(0, input.len() as int) =~= input);
        let keep: usize = if limit < 1 {
            1
        } else if limit > 500 {
            500
        } else {
            limit
        };
        let ghost all = views(ordered@);
        proof {
            vstd::seq_lib::to_multiset_len(all);
            vstd::seq_lib::to_multiset_len(input);
            assert(all.len() == records@.len());
        }
        ordered.truncate(keep);
        assert(views(ordered@) =~= all.subrange(0, listed_count(records@.len() as int, limit)));
        ordered
    }

    /// Local metrics over all capture records.
    pub fn metrics(records: &Vec<CaptureRecord>, since_ms: u64) -> (m: CaptureMetrics)
        requires
            records@.len() <= u64::MAX / 10000,
        ensures
            m == metrics_of(records@, since_ms),
    {
        let ghost s = records@;
        let mut completed: u64 = 0;
        let mut abandoned: u64 = 0;
        let mut since: u64 = 0;
        let mut corrected: u64 = 0;
        let mut times: Vec<u64> = Vec::new();
        let mut i: usize = 0;
        while i < records.len()
            invariant
                i <= records.len(),
                s == records@,
                s.len() <= u64::MAX / 10000,
                completed == count_status(s.subrange(0, i as int), CaptureStatus::Completed),
                abandoned == count_status(s.subrange(0, i as int), CaptureStatus::Abandoned),
                since == count_since(s.subrange(0, i as int), since_ms),
                corrected == count_corrected(s.subrange(0, i as int)),
                times@ == durations(s.subrange(0, i as int)),
            decreases records.len() - i,
        {
            let ghost pre = s.subrange(0, i + 1);
            assert(pre.drop_last() =~= s.subrange(0, i as int));
            proof {
                lemma_counts_bounded(pre, since_ms);
            }
            let r = &records[i];
            if r.status == CaptureStatus::Completed {
                completed = completed + 1;
                if r.correction_count > 0 {
                    corrected = corrected + 1;
                }
                let d = if r.completed_at_ms >= r.started_at_ms {
                    r.completed_at_ms - r.started_at_ms
                } else {
                    0
                };
                times.push(d);
            } else {
                abandoned = abandoned + 1;
            }
            if r.completed_at_ms >= since_ms {
                since = since + 1;
            }
            i = i + 1;
        }
        assert(s.subrange(0, s.len() as int) =~= s);
        proof {
            lemma_counts_bounded(s, since_ms);
        }
        let ghost unsorted = times@;
        sort_durations(&mut times);
        proof {
            vstd::seq_lib::to_multiset_len(times@);
            vstd::seq_lib::to_multiset_len(unsorted);
        }
        let rate: u32 = if completed == 0 {
            0
        } else {
            assert((corrected * 10000) / (completed as int) <= 10000) by (nonlinear_arith)
                requires
                    corrected <= completed,
                    completed > 0,
            {
                assert(corrected * 10000 <= completed * 10000);
            }
            (corrected * 10000 / completed) as u32
        };
        let median = if times.len() == 0 {
            None
        } else {
            proof {
                lemma_ms_leq_total();
                unsorted.lemma_sort_by_ensures(ms_leq());
                vstd::seq_lib::lemma_sorted_unique(times@, unsorted.sort_by(ms_leq()), ms_leq());
            }
            Some(times[times.len() / 2])
        };
        assert(completed == metrics_of(records@, since_ms).completed_captures);
        assert(abandoned == metrics_of(records@, since_ms).abandoned_captures);
        assert(since == metrics_of(records@, since_ms).captures_since);
        assert(corrected == metrics_of(records@, since_ms).corrected_captures);
        assert(rate == metrics_of(records@, since_ms).correction_rate_basis_points);
        assert(median == metrics_of(records@, since_ms).median_completion_ms);
        CaptureMetrics {
            total_captures: records.len() as u64,
            completed_captures: completed,
            abandoned_captures: abandoned,
            captures_since: since,
            corrected_captures: corrected,
            correction_rate_basis_points: rate,
            median_completion_ms: median,
        }
    }
}


// ---------------------------------------------------------------------------
// Markers: removal undoes addition
// ---------------------------------------------------------------------------

proof fn lemma_no_newline_across(w: Seq<char>, p: Seq<char>, i: int, q: int)
    requires
        0 <= i <= q < i + p.len(),
        q < w.len(),
        w[q] == '\n',
        forall|k: int| 0 <= k < p.len() ==> p[k] != '\n',
    ensures
        !occurs_at(w, p, i),
{
    if occurs_at(w, p, i) {
        assert(w.subrange(i, i + p.len())[q - i] == w[q]);
    }
}

proof fn lemma_marker_chars(id: Seq<char>)
    requires
        valid_capture_id(id),
    ensures
        marker_start(id).len() == id.len() + 28,
        marker_end(id).len() == id.len() + 26,
        marker_start(id)[0] == '<',
        marker_end(id)[0] == '<',
        marker_start(id)[id.len() + 19int] == 's',
        marker_end(id)[id.len() + 19int] == 'e',
        forall|k: int| 0 <= k < marker_start(id).len() ==> #[trigger] marker_start(id)[k] != '\n',
        forall|k: int| 0 <= k < marker_end(id).len() ==> #[trigger] marker_end(id)[k] != '\n',
        forall|k: int| 0 < k < marker_start(id).len() ==> #[trigger] marker_start(id)[k] != '<',
        forall|k: int| 0 <= k < id.len() + 19 ==> #[trigger] marker_start(id)[k] == marker_end(id)[k],
{
    reveal_strlit("<!-- vela:capture:");
    reveal_strlit(":start -->");
    reveal_strlit(":end -->");
    let s = marker_start(id);
    let e = marker_end(id);
    assert forall|k: int| 0 <= k < s.len() implies #[trigger] s[k] != '\n' by {
        if 18 <= k < 18 + id.len() {
            assert(s[k] == id[k - 18]);
            assert(is_id_char(id[k - 18]));
        }
    }
    assert forall|k: int| 0 <= k < e.len() implies #[trigger] e[k] != '\n' by {
        if 18 <= k < 18 + id.len() {
            assert(e[k] == id[k - 18]);
            assert(is_id_char(id[k - 18]));
        }
    }
    assert forall|k: int| 0 < k < s.len() implies #[trigger] s[k] != '<' by {
        if 18 <= k < 18 + id.len() {
            assert(s[k] == id[k - 18]);
            assert(is_id_char(id[k - 18]));
        }
    }
    assert forall|k: int| 0 <= k < id.len() + 19 implies #[trigger] s[k] == e[k] by {
        if 18 <= k < 18 + id.len() {
            assert(s[k] == id[k - 18]);
            assert(e[k] == id[k - 18]);
        }
    }
}

proof fn lemma_first_opening(w: Seq<char>, b: Seq<char>, s: Seq<char>, rest: Seq<char>)
    requires
        w == b + seq!['\n', '\n'] + s + rest,
        !contains_seq(b, s),
        s.len() > 0,
        forall|k: int| 0 <= k < s.len() ==> #[trigger] s[k] != '\n',
    ensures
        occurs_from(w, s, 0),
        first_from(w, s, 0) == b.len() + 2,
{
    let bl = b.len() as int;
    let sp = bl + 2;
    assert(w[bl] == '\n');
    assert(w[bl + 1] == '\n');
    assert(w.subrange(sp, sp + s.len()) =~= s);
    assert forall|j: int| 0 <= j < sp implies !occurs_at(w, s, j) by {
        if j + s.len() <= bl {
            if occurs_at(w, s, j) {
                assert(b.subrange(j, j + s.len()) =~= w.subrange(j, j + s.len()));
                assert(occurs_at(b, s, j));
            }
        } else if j <= bl {
            lemma_no_newline_across(w, s, j, bl);
        } else {
            lemma_no_newline_across(w, s, j, bl + 1);
        }
    }
    lemma_first_from(w, s, 0, sp);
}

proof fn lemma_first_closing(w: Seq<char>, x: Seq<char>, s: Seq<char>, text: Seq<char>, e: Seq<char>, k0: int)
    requires
        w == x + s + seq!['\n', '-', ' '] + text + seq!['\n'] + e + seq!['\n'],
        !contains_seq(text, e),
        0 <= k0 < e.len() <= s.len(),
        s[k0] != e[k0],
        e[0] == '<',
        forall|k: int| 0 < k < s.len() ==> #[trigger] s[k] != '<',
        forall|k: int| 0 <= k < e.len() ==> #[trigger] e[k] != '\n',
    ensures
        occurs_from(w, e, x.len() as int),
        first_from(w, e, x.len() as int) == x.len() + s.len() + 3 + text.len() + 1,
        w.len() == x.len() + s.len() + 3 + text.len() + 1 + e.len() + 1,
        w[(x.len() + s.len() + 3 + text.len() + 1 + e.len()) as int] == '\n',
        w.subrange(0, x.len() as int) == x,
{
    let sp = x.len() as int;
    let t0 = sp + s.len() + 3;
    let t1 = t0 + text.len();
    let ep = t1 + 1;
    assert(w[sp + s.len()] == '\n');
    assert(w[sp + s.len() + 1] == '-');
    assert(w[sp + s.len() + 2] == ' ');
    assert(w[t1] == '\n');
    assert(w.subrange(ep, ep + e.len()) =~= e);
    assert forall|j: int| sp <= j < ep implies !occurs_at(w, e, j) by {
        if occurs_at(w, e, j) {
            assert(w.subrange(j, j + e.len())[0] == w[j]);
            if j == sp {
                assert(w.subrange(j, j + e.len())[k0] == w[sp + k0]);
                assert(w[sp + k0] == s[k0]);
            } else if j < sp + s.len() {
                assert(w[j] == s[j - sp]);
            } else if j < t0 {
            } else if j + e.len() <= t1 {
                assert(text.subrange(j - t0, j - t0 + e.len()) =~= w.subrange(j, j + e.len()));
                assert(occurs_at(text, e, j - t0));
            } else {
                lemma_no_newline_across(w, e, j, t1);
            }
        }
    }
    lemma_first_from(w, e, sp, ep);
    assert(w.subrange(0, sp) =~= x);
}

proof fn lemma_cut_entry(w: Seq<char>, capture_id: Seq<char>, sp: int, ep: int)
    requires
        occurs_from(w, marker_start(capture_id), 0),
        first_from(w, marker_start(capture_id), 0) == sp,
        occurs_from(w, marker_end(capture_id), sp),
        first_from(w, marker_end(capture_id), sp) == ep,
        0 <= sp <= ep,
        ep + marker_end(capture_id).len() + 1 == w.len(),
        w[ep + marker_end(capture_id).len()] == '\n',
    ensures
        without_marker(w, capture_id) == w.subrange(0, sp),
{
    assert(w.subrange(w.len() as int, w.len() as int) =~= Seq::<char>::empty());
    assert(w.subrange(0, sp) + Seq::<char>::empty() =~= w.subrange(0, sp));
}

proof fn lemma_entry_layout(b: Seq<char>, s: Seq<char>, text: Seq<char>, e: Seq<char>)
    ensures
        b + "\n\n"@ + s + "\n- "@ + text + "\n"@ + e + "\n"@ == b + seq!['\n', '\n'] + s + (seq![
            '\n',
            '-',
            ' ',
        ] + text + seq!['\n'] + e + seq!['\n']),
        b + "\n\n"@ + s + "\n- "@ + text + "\n"@ + e + "\n"@ == (b + seq!['\n', '\n']) + s + seq![
            '\n',
            '-',
            ' ',
        ] + text + seq!['\n'] + e + seq!['\n'],
        b + "\n\n"@ == b + seq!['\n', '\n'],
{
    reveal_strlit("\n\n");
    reveal_strlit("\n- ");
    reveal_strlit("\n");
    assert(b + "\n\n"@ + s + "\n- "@ + text + "\n"@ + e + "\n"@ =~= b + seq!['\n', '\n'] + s + (seq![
        '\n',
        '-',
        ' ',
    ] + text + seq!['\n'] + e + seq!['\n']));
    assert(b + "\n\n"@ + s + "\n- "@ + text + "\n"@ + e + "\n"@ =~= (b + seq!['\n', '\n']) + s + seq![
        '\n',
        '-',
        ' ',
    ] + text + seq!['\n'] + e + seq!['\n']);
    assert(b + "\n\n"@ =~= b + seq!['\n', '\n']);
}

#[verifier::spinoff_prover]
#[verifier::rlimit(40)]
proof fn lemma_remove_after_add(b: Seq<char>, capture_id: Seq<char>, text: Seq<char>)
    requires
        valid_capture_id(capture_id),
        !contains_seq(b, marker_start(capture_id)),
        !contains_seq(text, marker_end(capture_id)),
    ensures
        without_marker(
            b + "\n\n"@ + marker_start(capture_id) + "\n- "@ + text + "\n"@ + marker_end(capture_id)
                + "\n"@,
            capture_id,
        ) == b + "\n\n"@,
{
    lemma_marker_chars(capture_id);
    let s = marker_start(capture_id);
    let e = marker_end(capture_id);
    let w = b + "\n\n"@ + s + "\n- "@ + text + "\n"@ + e + "\n"@;
    let x = b + seq!['\n', '\n'];
    let rest = seq!['\n', '-', ' '] + text + seq!['\n'] + e + seq!['\n'];
    lemma_entry_layout(b, s, text, e);
    lemma_first_opening(w, b, s, rest);
    lemma_first_closing(w, x, s, text, e, capture_id.len() + 19int);
    let sp = x.len() as int;
    let ep = (x.len() + s.len() + 3 + text.len() + 1) as int;
    lemma_cut_entry(w, capture_id, sp, ep);
}

/// Removing a capture's marker undoes adding it: what is left is the
/// content the entry was appended to (trimmed, with its heading) and the
/// blank line before the entry. This holds for every valid capture ID when
/// the content does not already hold that capture's opening marker and the
/// entry's text does not hold its closing marker.
pub proof fn law_removing_a_marker_undoes_adding_it(
    content: Seq<char>,
    heading: Seq<char>,
    capture_id: Seq<char>,
    text: Seq<char>,
)
    requires
        valid_capture_id(capture_id),
        !contains_seq(marker_base(content, heading), marker_start(capture_id)),
        !contains_seq(text, marker_end(capture_id)),
    ensures
        without_marker(with_marker(content, heading, capture_id, text), capture_id)
            == marker_base(content, heading) + "\n\n"@,
{
    lemma_remove_after_add(marker_base(content, heading), capture_id, text);
}

} // verus!
