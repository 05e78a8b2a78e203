//! The summary pipeline's decisions.
//!
//! A summary request resolves to a date range, the range's entries
//! become a prompt, a backend turns the prompt into text, and the text
//! is persisted under a deterministic name.  Everything here is the
//! deciding and rendering part of that pipeline; the HTTP exchange and
//! the file writes happen outside the crate, which hands back plain
//! status codes, bodies and chunks.

use crate::backend::{response_outcome, BackendKind};
use crate::date::{date_str, Date};
use crate::entry::{eseq, LogEntry, LogEntryV};
use crate::errors::AppError;
use crate::text::{chars_to_string, dec_digits, dec_str0};
use vstd::prelude::*;

verus! {

/// The kinds of summary, deciding the date range and the preamble.
#[derive(Debug, Clone, Copy, PartialEq, Eq, Structural)]
pub enum SummaryType {
    Weekly,
    Monthly,
    Quarterly,
    Custom,
}

/// A summary request: its kind, the range for custom requests, and the
/// title used in rendering.
#[derive(Debug, Clone)]
pub struct SummaryConfig {
    pub summary_type: SummaryType,
    pub start_date: Option<Date>,
    pub end_date: Option<Date>,
    pub title: String,
}

/// The quarter a month belongs to, 1 through 4.
pub open spec fn quarter_of(m: int) -> int {
    (m - 1) / 3 + 1
}

/// The first month of the quarter holding `m`.
pub open spec fn quarter_start_month(m: int) -> int {
    ((m - 1) / 3) * 3 + 1
}

/// The quarter start month is January, April, July or October, lies in
/// the same quarter as the month itself, and does not come after it.
pub proof fn lemma_quarter_start_month(m: int)
    requires
        1 <= m <= 12,
    ensures
        quarter_start_month(m) == 1 || quarter_start_month(m) == 4 || quarter_start_month(m) == 7
            || quarter_start_month(m) == 10,
        quarter_of(quarter_start_month(m)) == quarter_of(m),
        quarter_start_month(m) <= m,
{
}

/// The backward-looking range of each non-custom kind: 7, 30 or 90 days
/// back from today, clamped at the calendar origin as the original
/// fallback does.
pub fn calculate_date_range(summary_type: SummaryType, today: Date) -> (r: (Date, Date))
    requires
        today.wf(),
    ensures
        r.0.wf(),
        r.1 == today,
        (match summary_type {
            SummaryType::Weekly => back_from(today, 7, r.0),
            SummaryType::Monthly => back_from(today, 30, r.0),
            SummaryType::Quarterly => back_from(today, 90, r.0),
            SummaryType::Custom => r.0 == today,
        }),
{
    match summary_type {
        SummaryType::Weekly => (today.sub_days(7), today),
        SummaryType::Monthly => (today.sub_days(30), today),
        SummaryType::Quarterly => (today.sub_days(90), today),
        SummaryType::Custom => (today, today),
    }
}

/// `start` lies exactly `n` days before `today`, unless that would fall
/// off the calendar, in which case it is `today` itself.
pub open spec fn back_from(today: Date, n: int, start: Date) -> bool {
    if today.day_number() - n >= 1 {
        start.day_number() == today.day_number() - n
    } else {
        start == today
    }
}

/// Resolves the date range of a request: computed for the fixed kinds,
/// caller-supplied for custom ones.  Fails exactly when a custom request
/// misses one of its dates.
pub fn resolve_date_range(
    summary_type: SummaryType,
    today: Date,
    start: Option<Date>,
    end: Option<Date>,
) -> (r: Result<(Date, Date), AppError>)
    requires
        today.wf(),
        start matches Some(d) ==> d.wf(),
        end matches Some(d) ==> d.wf(),
    ensures
        (match r {
            Ok(p) => p.0.wf() && p.1.wf() && (match summary_type {
                SummaryType::Weekly => p.1 == today && back_from(today, 7, p.0),
                SummaryType::Monthly => p.1 == today && back_from(today, 30, p.0),
                SummaryType::Quarterly => p.1 == today && back_from(today, 90, p.0),
                SummaryType::Custom => start == Some(p.0) && end == Some(p.1),
            }),
            Err(e) => e is MissingDateError,
        }),
        (summary_type is Custom && (start is None || end is None)) <==> r is Err,
{
    match summary_type {
        SummaryType::Custom => {
            match (start, end) {
                (Some(s), Some(e)) => Ok((s, e)),
                _ => Err(AppError::MissingDateError),
            }
        }
        _ => Ok(calculate_date_range(summary_type, today)),
    }
}

/// A short label for each kind.
pub open spec fn kind_label(k: SummaryType) -> Seq<char> {
    match k {
        SummaryType::Weekly => "Weekly summary"@,
        SummaryType::Monthly => "Monthly summary"@,
        SummaryType::Quarterly => "Quarterly summary"@,
        SummaryType::Custom => "Custom summary"@,
    }
}

/// The title rendered for a resolved range.
pub open spec fn title_spec(k: SummaryType, s: Date, e: Date) -> Seq<char> {
    kind_label(k) + " ("@ + date_str(s) + " to "@ + date_str(e) + ")"@
}

/// Renders the title of a summary over a resolved range.
fn make_title(k: SummaryType, s: &Date, e: &Date) -> (r: String)
    requires
        s.wf(),
        e.wf(),
    ensures
        r@ == title_spec(k, *s, *e),
{
    let label = match k {
        SummaryType::Weekly => String::from_str("Weekly summary"),
        SummaryType::Monthly => String::from_str("Monthly summary"),
        SummaryType::Quarterly => String::from_str("Quarterly summary"),
        SummaryType::Custom => String::from_str("Custom summary"),
    };
    label.concat(" (").concat(s.format().as_str()).concat(" to ").concat(
        e.format().as_str(),
    ).concat(")")
}

impl SummaryConfig {
    /// The configuration a kind stands for, relative to today: the last
    /// seven days for weekly, the month so far for monthly, the quarter
    /// so far for quarterly; a custom kind starts with no range.
    pub fn for_type(summary_type: SummaryType, today: Date) -> (r: SummaryConfig)
        requires
            today.wf(),
        ensures
            r.summary_type == summary_type,
            (match summary_type {
                SummaryType::Weekly => {
                    &&& r.end_date == Some(today)
                    &&& r.start_date matches Some(s) && s.wf() && back_from(today, 6, s)
                },
                SummaryType::Monthly => r.end_date == Some(today) && r.start_date == Some(
                    Date { year: today.year, month: today.month, day: 1 },
                ),
                SummaryType::Quarterly => {
                    &&& r.end_date == Some(today)
                    &&& r.start_date matches Some(s) && s.wf() && s.year == today.year && s.day
                        == 1 && s.month as int == quarter_start_month(today.month as int)
                },
                SummaryType::Custom => r.start_date is None && r.end_date is None,
            }),
    {
        match summary_type {
            SummaryType::Weekly => {
                let s = today.sub_days(6);
                let title = make_title(summary_type, &s, &today);
                SummaryConfig {
                    summary_type,
                    start_date: Some(s),
                    end_date: Some(today),
                    title,
                }
            }
            SummaryType::Monthly => {
                let s = Date { year: today.year, month: today.month, day: 1 };
                let title = make_title(summary_type, &s, &today);
                SummaryConfig {
                    summary_type,
                    start_date: Some(s),
                    end_date: Some(today),
                    title,
                }
            }
            SummaryType::Quarterly => {
                proof {
                    lemma_quarter_start_month(today.month as int);
                }
                let qm = ((today.month - 1) / 3) * 3 + 1;
                let s = Date { year: today.year, month: qm, day: 1 };
                let title = make_title(summary_type, &s, &today);
                SummaryConfig {
                    summary_type,
                    start_date: Some(s),
                    end_date: Some(today),
                    title,
                }
            }
            SummaryType::Custom => SummaryConfig {
                summary_type,
                start_date: None,
                end_date: None,
                title: String::from_str("Custom summary"),
            },
        }
    }

    /// Turns the configuration into a custom request over the given
    /// range.  Fails exactly when the range is inverted, leaving nothing
    /// decided.
    pub fn with_custom_range(self, start: Date, end: Date) -> (r: Result<
        SummaryConfig,
        AppError,
    >)
        requires
            start.wf(),
            end.wf(),
        ensures
            (match r {
                Ok(c) => start.le_spec(end) && c.summary_type is Custom && c.start_date == Some(
                    start,
                ) && c.end_date == Some(end),
                Err(e) => e matches AppError::InvalidRangeError { .. },
            }),
            start.le_spec(end) <==> r is Ok,
    {
        if !start.le(&end) {
            return Err(
                AppError::InvalidRangeError { start: start.format(), end: end.format() },
            );
        }
        let title = make_title(SummaryType::Custom, &start, &end);
        Ok(
            SummaryConfig {
                summary_type: SummaryType::Custom,
                start_date: Some(start),
                end_date: Some(end),
                title,
            },
        )
    }
}

/// The artifact file name of a summary: derived from the kind and
/// today's date, or from the custom range itself.
pub open spec fn filename_spec(
    k: SummaryType,
    today: Date,
    start: Option<Date>,
    end: Option<Date>,
) -> Seq<char> {
    match k {
        SummaryType::Weekly => "weekly_summary_"@ + date_str(today) + ".md"@,
        SummaryType::Monthly => "monthly_summary_"@ + dec_str0(today.year as int) + "-"@
            + dec_str0(today.month as int) + ".md"@,
        SummaryType::Quarterly => "quarterly_summary_"@ + dec_str0(today.year as int) + "-Q"@
            + dec_str0(quarter_of(today.month as int)) + ".md"@,
        SummaryType::Custom => "custom_summary_"@ + date_str(
            match start {
                Some(d) => d,
                None => today,
            },
        ) + "_"@ + date_str(
            match end {
                Some(d) => d,
                None => today,
            },
        ) + ".md"@,
    }
}

/// The artifact file name of a configuration's summary.
pub fn get_summary_filename(config: &SummaryConfig, today: Date) -> (r: String)
    requires
        today.wf(),
        config.start_date matches Some(d) ==> d.wf(),
        config.end_date matches Some(d) ==> d.wf(),
    ensures
        r@ == filename_spec(config.summary_type, today, config.start_date, config.end_date),
{
    match config.summary_type {
        SummaryType::Weekly => {
            String::from_str("weekly_summary_").concat(today.format().as_str()).concat(".md")
        }
        SummaryType::Monthly => {
            let y = chars_to_string(&dec_digits(today.year as u64));
            let m = chars_to_string(&dec_digits(today.month as u64));
            String::from_str("monthly_summary_").concat(y.as_str()).concat("-").concat(
                m.as_str(),
            ).concat(".md")
        }
        SummaryType::Quarterly => {
            let y = chars_to_string(&dec_digits(today.year as u64));
            let q = chars_to_string(&dec_digits((((today.month - 1) / 3) + 1) as u64));
            String::from_str("quarterly_summary_").concat(y.as_str()).concat("-Q").concat(
                q.as_str(),
            ).concat(".md")
        }
        SummaryType::Custom => {
            let s = match &config.start_date {
                Some(d) => *d,
                None => today,
            };
            let e = match &config.end_date {
                Some(d) => *d,
                None => today,
            };
            String::from_str("custom_summary_").concat(s.format().as_str()).concat("_").concat(
                e.format().as_str(),
            ).concat(".md")
        }
    }
}

/// Lets a request proceed only when its range holds any entries at all.
/// An empty aggregation is the expected no-logs condition, not a defect.
pub fn require_logs(
    days: &Vec<(Date, Vec<LogEntry>)>,
    start: &Date,
    end: &Date,
) -> (r: Result<(), AppError>)
    requires
        start.wf(),
        end.wf(),
    ensures
        r is Ok <==> days@.len() > 0,
        r matches Err(e) ==> e matches AppError::NoLogsError { .. },
{
    if days.len() == 0 {
        Err(AppError::NoLogsError { start: start.format(), end: end.format() })
    } else {
        Ok(())
    }
}

/// A finished summary: the generated text and the name it is persisted
/// under.  The caller owns it; the pipeline keeps nothing.
#[derive(Debug, Clone)]
pub struct SummaryArtifact {
    pub filename: String,
    pub text: String,
}

/// The last pipeline step before persistence: interprets the backend's
/// HTTP answer and, only on success, yields the artifact to write.  A
/// failing status yields the backend error and no artifact at all.
pub fn summary_artifact(kind: BackendKind, status: u16, body: &str, filename: String) -> (r:
    Result<SummaryArtifact, AppError>)
    ensures
        (match r {
            Ok(a) => response_outcome(kind, status, body@) == Some(a.text@) && a.filename
                == filename,
            Err(e) => response_outcome(kind, status, body@) is None,
        }),
        !(200 <= status < 300) ==> r == Err::<SummaryArtifact, AppError>(
            AppError::BackendError { status },
        ),
{
    match crate::backend::accept_response(kind, status, body) {
        Ok(text) => Ok(SummaryArtifact { filename, text }),
        Err(e) => Err(e),
    }
}

/// The instructional preamble of each kind, tuned to its time horizon.
pub open spec fn preamble(k: SummaryType) -> Seq<char> {
    match k {
        SummaryType::Weekly => "Summarize the following week of work logs: what was done, the results, the problems met, and suggested improvements."@,
        SummaryType::Monthly => "Summarize the following month of work logs: the main work, the results and lessons, and a plan for the coming month."@,
        SummaryType::Quarterly => "Summarize the following quarter of work logs: progress against goals, major projects, results and problems, and a plan for the next quarter."@,
        SummaryType::Custom => "Summarize the work logs of the following period: the key work, the results, and the lessons learned."@,
    }
}

/// The preamble of a kind, as a string.
pub fn preamble_x(k: SummaryType) -> (r: String)
    ensures
        r@ == preamble(k),
{
    match k {
        SummaryType::Weekly => String::from_str(
            "Summarize the following week of work logs: what was done, the results, the problems met, and suggested improvements.",
        ),
        SummaryType::Monthly => String::from_str(
            "Summarize the following month of work logs: the main work, the results and lessons, and a plan for the coming month.",
        ),
        SummaryType::Quarterly => String::from_str(
            "Summarize the following quarter of work logs: progress against goals, major projects, results and problems, and a plan for the next quarter.",
        ),
        SummaryType::Custom => String::from_str(
            "Summarize the work logs of the following period: the key work, the results, and the lessons learned.",
        ),
    }
}

/// The fixed style preamble handed to the backend beside the prompt.
pub fn system_prompt() -> (r: String)
    ensures
        r@
            == "You are a careful work-log analysis assistant: summarize the work and offer useful insights."@,
{
    String::from_str(
        "You are a careful work-log analysis assistant: summarize the work and offer useful insights.",
    )
}

/// One bullet line per entry's content.
pub open spec fn bullets(evs: Seq<LogEntryV>) -> Seq<char>
    decreases evs.len(),
{
    if evs.len() == 0 {
        Seq::empty()
    } else {
        "- "@ + evs[0].content + "\n"@ + bullets(evs.drop_first())
    }
}

/// One more entry appends one more bullet line.
pub proof fn lemma_bullets_snoc(evs: Seq<LogEntryV>, ev: LogEntryV)
    ensures
        bullets(evs.push(ev)) == bullets(evs) + ("- "@ + ev.content + "\n"@),
    decreases evs.len(),
{
    if evs.len() == 0 {
        let p = evs.push(ev);
        assert(p[0] == ev);
        assert(p.drop_first() =~= Seq::<LogEntryV>::empty());
        assert(bullets(p.drop_first()) == Seq::<char>::empty());
        assert(bullets(p) =~= "- "@ + ev.content + "\n"@);
        assert(bullets(evs) + ("- "@ + ev.content + "\n"@) =~= "- "@ + ev.content + "\n"@);
    } else {
        assert(evs.push(ev).drop_first() =~= evs.drop_first().push(ev));
        lemma_bullets_snoc(evs.drop_first(), ev);
        assert(evs.push(ev)[0] == evs[0]);
        assert(bullets(evs.push(ev)) == "- "@ + evs[0].content + "\n"@ + (bullets(
            evs.drop_first(),
        ) + ("- "@ + ev.content + "\n"@)));
        assert(bullets(evs.push(ev)) =~= bullets(evs) + ("- "@ + ev.content + "\n"@));
    }
}

/// A date heading followed by that date's bullet lines.
pub open spec fn day_block(d: Date, evs: Seq<LogEntryV>) -> Seq<char> {
    "## "@ + date_str(d) + "\n"@ + bullets(evs) + "\n"@
}

/// The rendered log section: one block per aggregated day, in order.
pub open spec fn logs_text(days: Seq<(Date, Vec<LogEntry>)>) -> Seq<char>
    decreases days.len(),
{
    if days.len() == 0 {
        Seq::empty()
    } else {
        day_block(days[0].0, eseq(days[0].1@)) + logs_text(days.drop_first())
    }
}

/// One more day appends one more block.
pub proof fn lemma_logs_text_snoc(days: Seq<(Date, Vec<LogEntry>)>, day: (Date, Vec<LogEntry>))
    ensures
        logs_text(days.push(day)) == logs_text(days) + day_block(day.0, eseq(day.1@)),
    decreases days.len(),
{
    if days.len() == 0 {
        let p = days.push(day);
        assert(p[0] == day);
        assert(p.drop_first() =~= Seq::<(Date, Vec<LogEntry>)>::empty());
        assert(logs_text(p.drop_first()) == Seq::<char>::empty());
        assert(logs_text(p) =~= day_block(day.0, eseq(day.1@)));
        assert(logs_text(days) + day_block(day.0, eseq(day.1@)) =~= day_block(
            day.0,
            eseq(day.1@),
        ));
    } else {
        assert(days.push(day).drop_first() =~= days.drop_first().push(day));
        lemma_logs_text_snoc(days.drop_first(), day);
        assert(days.push(day)[0] == days[0]);
        assert(logs_text(days.push(day)) == day_block(days[0].0, eseq(days[0].1@)) + (logs_text(
            days.drop_first(),
        ) + day_block(day.0, eseq(day.1@))));
        assert(logs_text(days.push(day)) =~= logs_text(days) + day_block(day.0, eseq(day.1@)));
    }
}

/// The full prompt of a request: the kind's preamble, a blank line, and
/// the rendered log sections.
pub open spec fn prompt_text(k: SummaryType, days: Seq<(Date, Vec<LogEntry>)>) -> Seq<char> {
    preamble(k) + "\n\n"@ + logs_text(days)
}

/// Renders the prompt handed to the backend.
#[verifier::loop_isolation(false)]
pub fn render_prompt(k: SummaryType, days: &Vec<(Date, Vec<LogEntry>)>) -> (r: String)
    requires
        forall|x: int| 0 <= x < days@.len() ==> (#[trigger] days@[x].0).wf(),
    ensures
        r@ == prompt_text(k, days@),
{
    let mut out = preamble_x(k);
    out.append("\n\n");
    proof {
        assert(days@.subrange(0, 0) =~= Seq::<(Date, Vec<LogEntry>)>::empty());
    }
    let n = days.len();
    let mut i: usize = 0;
    while i < n
        invariant
            n == days@.len(),
            i <= n,
            out@ == preamble(k) + "\n\n"@ + logs_text(days@.subrange(0, i as int)),
        decreases n - i,
    {
        let day = &days[i];
        out.append("## ");
        out.append(day.0.format().as_str());
        out.append("\n");
        let ghost block_head = out@;
        let m = day.1.len();
        let mut j: usize = 0;
        while j < m
            invariant
                day == days@[i as int],
                m == day.1@.len(),
                j <= m,
                out@ == block_head + bullets(eseq(day.1@).subrange(0, j as int)),
            decreases m - j,
        {
            proof {
                assert(bullets(eseq(day.1@).subrange(0, 0)) == Seq::<char>::empty());
                assert(block_head + Seq::<char>::empty() =~= block_head);
            }
            out.append("- ");
            out.append(day.1[j].content.as_str());
            out.append("\n");
            proof {
                let evs = eseq(day.1@);
                assert(evs.subrange(0, j as int).push(evs[j as int]) =~= evs.subrange(
                    0,
                    j as int + 1,
                ));
                lemma_bullets_snoc(evs.subrange(0, j as int), evs[j as int]);
                assert(out@ =~= block_head + bullets(evs.subrange(0, j as int + 1)));
            }
            j = j + 1;
        }
        out.append("\n");
        proof {
            let evs = eseq(day.1@);
            assert(evs.subrange(0, m as int) =~= evs);
            assert(days@.subrange(0, i as int).push(days@[i as int]) =~= days@.subrange(
                0,
                i as int + 1,
            ));
            lemma_logs_text_snoc(days@.subrange(0, i as int), days@[i as int]);
            assert(out@ =~= preamble(k) + "\n\n"@ + logs_text(days@.subrange(0, i as int + 1)));
        }
        i = i + 1;
    }
    proof {
        assert(days@.subrange(0, n as int) =~= days@);
        assert(out@ =~= prompt_text(k, days@));
    }
    out
}

/// The concatenation of a sequence of texts.
pub open spec fn concat_seq(cs: Seq<Seq<char>>) -> Seq<char>
    decreases cs.len(),
{
    if cs.len() == 0 {
        Seq::empty()
    } else {
        cs[0] + concat_seq(cs.drop_first())
    }
}

/// One more text appends itself to the concatenation.
pub proof fn lemma_concat_snoc(cs: Seq<Seq<char>>, t: Seq<char>)
    ensures
        concat_seq(cs.push(t)) == concat_seq(cs) + t,
    decreases cs.len(),
{
    if cs.len() == 0 {
        let p = cs.push(t);
        assert(p[0] == t);
        assert(p.drop_first() =~= Seq::<Seq<char>>::empty());
        assert(concat_seq(p.drop_first()) == Seq::<char>::empty());
        assert(concat_seq(p) =~= t);
        assert(concat_seq(cs) + t =~= t);
    } else {
        assert(cs.push(t).drop_first() =~= cs.drop_first().push(t));
        lemma_concat_snoc(cs.drop_first(), t);
        assert(cs.push(t)[0] == cs[0]);
        assert(concat_seq(cs.push(t)) == cs[0] + (concat_seq(cs.drop_first()) + t));
        assert(concat_seq(cs.push(t)) =~= concat_seq(cs) + t);
    }
}

/// One signal of a streaming generation, as delivered to the sink.
#[derive(Debug, Clone)]
pub enum StreamEvent {
    /// Generation has begun.
    Start,
    /// One chunk of text, in backend order.
    Chunk(String),
    /// Generation finished; carries the whole text.
    Complete(String),
    /// Generation failed; nothing further follows.
    Failed(AppError),
}

/// The shape of a streaming signal.
pub enum StreamEventV {
    Start,
    Chunk(Seq<char>),
    Complete(Seq<char>),
    Failed,
}

impl View for StreamEvent {
    type V = StreamEventV;

    open spec fn view(&self) -> StreamEventV {
        match self {
            StreamEvent::Start => StreamEventV::Start,
            StreamEvent::Chunk(c) => StreamEventV::Chunk(c@),
            StreamEvent::Complete(t) => StreamEventV::Complete(t@),
            StreamEvent::Failed(_) => StreamEventV::Failed,
        }
    }
}

/// The chunk signals of a chunk sequence, in order.
pub open spec fn chunk_events(cs: Seq<Seq<char>>) -> Seq<StreamEventV> {
    Seq::new(
        cs.len(),
        |i: int|
            if 0 <= i < cs.len() {
                StreamEventV::Chunk(cs[i])
            } else {
                StreamEventV::Start
            },
    )
}

/// Every signal of a streaming generation that delivers the chunks
/// `cs`: a start signal, the chunks in order, and one completion
/// carrying their concatenation.
pub open spec fn stream_transcript(cs: Seq<Seq<char>>) -> Seq<StreamEventV> {
    seq![StreamEventV::Start] + chunk_events(cs) + seq![
        StreamEventV::Complete(concat_seq(cs)),
    ]
}

/// One streaming generation in progress: the text so far, with the
/// chunks and signals so far as ghost history.
pub struct StreamSession {
    pub acc: String,
    pub chunks: Ghost<Seq<Seq<char>>>,
    pub events: Ghost<Seq<StreamEventV>>,
}

impl StreamSession {
    /// The text so far is the concatenation of the chunks so far, and
    /// the signals so far are the start plus one chunk signal each.
    pub open spec fn wf(self) -> bool {
        &&& self.acc@ == concat_seq(self.chunks@)
        &&& self.events@ == seq![StreamEventV::Start] + chunk_events(self.chunks@)
    }

    /// Opens a streaming generation, yielding the start signal.
    pub fn begin() -> (r: (StreamSession, StreamEvent))
        ensures
            r.0.wf(),
            r.0.chunks@ == Seq::<Seq<char>>::empty(),
            r.1@ is Start,
    {
        let ghost ev0: Seq<StreamEventV> = seq![StreamEventV::Start];
        let s = StreamSession {
            acc: String::new(),
            chunks: Ghost(Seq::empty()),
            events: Ghost(ev0),
        };
        proof {
            assert(chunk_events(Seq::<Seq<char>>::empty()) =~= Seq::<StreamEventV>::empty());
            assert(s.events@ =~= seq![StreamEventV::Start] + chunk_events(s.chunks@));
        }
        (s, StreamEvent::Start)
    }

    /// Takes one chunk from the backend and yields the signal that hands
    /// exactly this chunk to the sink, before any later chunk is taken.
    pub fn on_chunk(&mut self, chunk: &str) -> (ev: StreamEvent)
        requires
            old(self).wf(),
        ensures
            final(self).wf(),
            final(self).chunks@ == old(self).chunks@.push(chunk@),
            final(self).events@ == old(self).events@.push(StreamEventV::Chunk(chunk@)),
            ev@ == StreamEventV::Chunk(chunk@),
    {
        proof {
            lemma_concat_snoc(self.chunks@, chunk@);
        }
        self.acc.append(chunk);
        self.chunks = Ghost(self.chunks@.push(chunk@));
        self.events = Ghost(self.events@.push(StreamEventV::Chunk(chunk@)));
        proof {
            assert(chunk_events(self.chunks@) =~= chunk_events(old(self).chunks@).push(
                StreamEventV::Chunk(chunk@),
            ));
            assert(self.events@ =~= seq![StreamEventV::Start] + chunk_events(self.chunks@));
        }
        StreamEvent::Chunk(String::from_str(chunk))
    }

    /// Aborts the generation: the one terminal signal is the failure,
    /// after which nothing further is delivered and no text exists.
    pub fn fail(self, error: AppError) -> (ev: StreamEvent)
        requires
            self.wf(),
        ensures
            ev@ is Failed,
            self.events@.push(ev@) == seq![StreamEventV::Start] + chunk_events(self.chunks@)
                + seq![StreamEventV::Failed],
    {
        let ev = StreamEvent::Failed(error);
        proof {
            assert(self.events@.push(StreamEventV::Failed) =~= seq![StreamEventV::Start]
                + chunk_events(self.chunks@) + seq![StreamEventV::Failed]);
        }
        ev
    }

    /// Closes the generation: the final text is the concatenation of
    /// every chunk taken, and with the completion signal the signals
    /// form exactly the transcript of those chunks.
    pub fn finish(self) -> (r: (String, StreamEvent))
        requires
            self.wf(),
        ensures
            r.0@ == concat_seq(self.chunks@),
            r.1@ == StreamEventV::Complete(concat_seq(self.chunks@)),
            self.events@.push(r.1@) == stream_transcript(self.chunks@),
    {
        proof {
            assert(self.events@.push(StreamEventV::Complete(concat_seq(self.chunks@)))
                =~= stream_transcript(self.chunks@));
        }
        let text = self.acc.clone();
        (text, StreamEvent::Complete(self.acc))
    }
}

/// Streaming delivers the chunks to the sink in exactly backend order,
/// between one start and one completion signal, and the completed text
/// equals the buffered path's text whenever the backend's buffered
/// answer is the concatenation of its chunks.
pub proof fn lemma_stream_order_and_equivalence(cs: Seq<Seq<char>>, buffered: Seq<char>)
    requires
        buffered == concat_seq(cs),
    ensures
        stream_transcript(cs).len() == cs.len() + 2,
        stream_transcript(cs)[0] == StreamEventV::Start,
        forall|i: int|
            0 <= i < cs.len() ==> stream_transcript(cs)[i + 1] == StreamEventV::Chunk(cs[i]),
        stream_transcript(cs).last() == StreamEventV::Complete(buffered),
{
    assert forall|i: int|
        0 <= i < cs.len() implies stream_transcript(cs)[i + 1] == StreamEventV::Chunk(
        cs[i],
    ) by {
        assert(chunk_events(cs)[i] == StreamEventV::Chunk(cs[i]));
    }
}

} // verus!
