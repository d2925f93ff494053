//! The human-readable rendering of a bus entry, as styled text segments
//! that a terminal front end prints in order.

use vstd::prelude::*;

use crate::bus::decider_policy_name;
use crate::bus::decider_policy_name_text;
use crate::bus::BaseEngineOp;
use crate::bus::BusEntry;
use crate::bus::voter_ops_in_order;
use crate::bus::MailContent;
use crate::bus::Payload;
use crate::bus::PayloadBody;
use crate::bus::VoteType;
use crate::bus::VoterConfig;
use crate::bus::VoterConfigKind;
use crate::bus::VoterOpKind;
use crate::bus::VoterOps;
use crate::text::append_i64;
use crate::text::append_str;
use crate::text::append_u64;
use crate::text::decimal;
use crate::text::signed_decimal;

verus! {

/// The text of a UTC timestamp `ms` milliseconds after the epoch, in the
/// form `%Y-%m-%d %H:%M:%S%.3f UTC`, or `None` when out of range.
pub uninterp spec fn utc_millis_text(ms: i64) -> Option<Seq<char>>;

/// Calls chrono's `DateTime::<Utc>::from_timestamp_millis` and formats the
/// result with `%Y-%m-%d %H:%M:%S%.3f UTC`. Claimed: the result is
/// `utc_millis_text` of the argument (`None` when chrono returns `None`).
#[verifier::external_body]
fn format_utc_millis(ms: i64) -> (r: Option<String>)
    ensures
        match r {
            Some(s) => utc_millis_text(ms) == Some(s@),
            None => utc_millis_text(ms) is None,
        },
{
    match chrono::DateTime::<chrono::Utc>::from_timestamp_millis(ms) {
        Some(dt) => Some(dt.format("%Y-%m-%d %H:%M:%S%.3f UTC").to_string()),
        None => None,
    }
}

/// The `Debug` text of a string: quoted, with escapes.
pub uninterp spec fn str_debug_text(s: Seq<char>) -> Seq<char>;

/// Renders a string slice with `Debug` (`format!("{:?}", s)`). Claimed: the
/// text is `str_debug_text` of the slice.
#[verifier::external_body]
fn debug_quoted(s: &str) -> (r: String)
    ensures
        r@ == str_debug_text(s@),
{
    format!("{:?}", s)
}

/// How a segment of text is shown.
#[derive(Clone, Copy, Debug, PartialEq, Eq, Structural)]
pub enum Style {
    Plain,
    BrightCyan,
    BrightGreen,
    Red,
    Blue,
    Yellow,
    Magenta,
    BrightMagenta,
    BrightBlue,
    BrightYellow,
    BrightBlack,
    WhiteOnBlack,
}

/// A piece of text and its style.
#[derive(Debug)]
pub struct Segment {
    pub text: String,
    pub style: Style,
}

/// A segment as text and style.
pub type SegmentView = (Seq<char>, Style);

/// The views of a list of segments.
pub open spec fn segment_views(v: Seq<Segment>) -> Seq<SegmentView> {
    v.map_values(|s: Segment| (s.text@, s.style))
}

pub open spec fn plain(t: Seq<char>) -> SegmentView {
    (t, Style::Plain)
}

/// A line without its final carriage return, if it has one.
pub open spec fn strip_cr(line: Seq<char>) -> Seq<char> {
    if line.len() > 0 && line.last() == '\r' {
        line.drop_last()
    } else {
        line
    }
}

/// The lines of `s[start..]`, scanning from `i`: a line ends at `\n`, which
/// is dropped together with a `\r` just before it; a last line without `\n`
/// is kept as it is, and nothing follows a final `\n`.
pub open spec fn split_lines(s: Seq<char>, start: int, i: int) -> Seq<Seq<char>>
    decreases s.len() - i,
{
    if i >= s.len() || i < start || start < 0 {
        if 0 <= start < s.len() {
            seq![s.subrange(start, s.len() as int)]
        } else {
            Seq::empty()
        }
    } else if s[i] == '\n' {
        seq![strip_cr(s.subrange(start, i))] + split_lines(s, i + 1, i + 1)
    } else {
        split_lines(s, start, i + 1)
    }
}

/// The lines of a text.
pub open spec fn text_lines(s: Seq<char>) -> Seq<Seq<char>> {
    split_lines(s, 0, 0)
}

/// Each line, indented by a tab and shown white on black.
pub open spec fn line_segments(lines: Seq<Seq<char>>) -> Seq<SegmentView>
    decreases lines.len(),
{
    if lines.len() == 0 {
        Seq::empty()
    } else {
        line_segments(lines.drop_last()) + seq![plain("\t"@), (lines.last(), Style::WhiteOnBlack), plain("\n"@)]
    }
}

/// The body of a string payload: its lines, or `unknown` when absent.
pub open spec fn string_body(s: Option<String>, unknown: Seq<char>) -> Seq<SegmentView> {
    match s {
        Some(t) => line_segments(text_lines(t@)),
        None => seq![plain(unknown)],
    }
}

/// A one-line description of a voter configuration.
pub open spec fn voter_config_description_text(c: VoterConfig) -> Seq<char> {
    match c.config {
        Some(VoterConfigKind::Llm(l)) => if l.prompt_override@.len() == 0 {
            "llm"@
        } else {
            "llm(prompt_override="@ + str_debug_text(l.prompt_override@) + ")"@
        },
        Some(VoterConfigKind::RuleBased(r)) => "rule_based(rules="@ + decimal(r.rule_count as nat) + ")"@,
        Some(VoterConfigKind::Custom(a)) => "custom(type_url="@ + a.type_url@ + ")"@,
        None => "none"@,
    }
}

/// The description of an optional configuration, `none` when absent.
pub open spec fn opt_config_description(c: Option<VoterConfig>) -> Seq<char> {
    match c {
        Some(x) => voter_config_description_text(x),
        None => "none"@,
    }
}

/// The `Debug` text of an optional number.
pub open spec fn opt_u64_debug(n: Option<u64>) -> Seq<char> {
    match n {
        Some(x) => "Some("@ + decimal(x as nat) + ")"@,
        None => "None"@,
    }
}

/// One line per voter operation, in list order.
pub open spec fn voter_ops_lines(l: VoterOps) -> Seq<SegmentView>
    decreases l,
{
    match l {
        VoterOps::End => Seq::empty(),
        VoterOps::Entry { voter_id, op, rest } => seq![
            plain(
                match op.op {
                    Some(VoterOpKind::Add(a)) => "\t- add_voter voter_id="@ + voter_id@ + " config="@
                        + opt_config_description(a.config) + "\n"@,
                    Some(VoterOpKind::Remove) => "\t- remove_voter voter_id="@ + voter_id@ + "\n"@,
                    None => "\t- voter_op voter_id="@ + voter_id@ + " operation=<empty>\n"@,
                },
            ),
        ] + voter_ops_lines(*rest),
    }
}

/// The lines of a control entry's base-engine operation.
pub open spec fn base_engine_lines(op: Option<BaseEngineOp>) -> Seq<SegmentView> {
    match op {
        Some(BaseEngineOp::AddVoter(a)) => seq![
            plain("\tBaseEngine: add_voter config="@ + opt_config_description(a.config) + "\n"@),
        ],
        Some(BaseEngineOp::RemoveVoter(r)) => seq![plain("\tBaseEngine: remove_voter voter_id="@ + r.voter_id@ + "\n"@)],
        Some(BaseEngineOp::PolicyBatch(b)) => seq![
            plain("\tPolicyBatch:\n"@),
            plain("\t- expected_current_version="@ + opt_u64_debug(b.expected_current_version) + "\n"@),
            plain("\t- new_version="@ + decimal(b.new_version as nat) + "\n"@),
        ] + match b.decider_policy {
            Some(p) => seq![plain("\t- decider_policy="@ + decider_policy_name_text(p) + "\n"@)],
            None => Seq::empty(),
        } + voter_ops_lines(b.voter_ops),
        None => seq![plain("\tBaseEngine: <empty>\n"@)],
    }
}

/// The reason line of a boolean vote, when it has a reason.
pub open spec fn vote_reason_segments(reason: Seq<char>, color: Style) -> Seq<SegmentView> {
    if reason.len() > 0 {
        seq![plain("\tReason: "@), (reason, color), plain("\n"@)]
    } else {
        Seq::empty()
    }
}

/// The configuration line of a boolean vote, when it has a configuration.
pub open spec fn vote_config_segments(c: Option<VoterConfig>) -> Seq<SegmentView> {
    match c {
        Some(x) => seq![plain("\tConfig: "@ + voter_config_description_text(x) + "\n"@)],
        None => Seq::empty(),
    }
}

/// The segments of a payload body.
pub open spec fn body_segments(b: PayloadBody) -> Seq<SegmentView> {
    match b {
        PayloadBody::Intention(i) => seq![("INTENTION:"@, Style::BrightCyan), plain("\n"@)] + string_body(
            i.intention,
            "<unknown>\n"@,
        ),
        PayloadBody::Vote(v) => {
            let id = " intention_id="@ + signed_decimal(v.intention_id as int) + ", vote="@;
            match v.abstract_vote {
                Some(VoteType { boolean_vote: Some(yes) }) => {
                    let color = if yes {
                        Style::BrightGreen
                    } else {
                        Style::Red
                    };
                    seq![("VOTE:"@, color), plain(id), plain(if yes { "true\n"@ } else { "false\n"@ })]
                        + vote_reason_segments(v.reason@, color) + vote_config_segments(v.voter_config)
                },
                _ => seq![("VOTE:"@, Style::Blue), plain(id), plain("<unknown>\n"@)],
            }
        },
        PayloadBody::Commit(c) => seq![
            ("COMMIT:"@, Style::BrightGreen),
            plain(" intention_id="@ + signed_decimal(c.intention_id as int) + "\n"@),
            plain("\tReason: "@),
            (c.reason@, Style::BrightGreen),
            plain("\n"@),
        ],
        PayloadBody::Abort(a) => seq![
            ("ABORT:"@, Style::Red),
            plain(" intention_id="@ + signed_decimal(a.intention_id as int) + "\n"@),
            plain("\tReason: "@),
            (a.reason@, Style::Red),
            plain("\n"@),
        ],
        PayloadBody::DeciderPolicy(p) => seq![
            ("DECIDER_POLICY:"@, Style::Yellow),
            plain(" "@ + decider_policy_name_text(p) + "\n"@),
        ],
        PayloadBody::VoterPolicy(p) => seq![
            ("VOTER_POLICY:"@, Style::Magenta),
            plain(
                match p.config {
                    Some(a) => match a.llm_voter_config {
                        Some(l) => " llm(prompt_override="@ + str_debug_text(l.prompt_override@) + ")\n"@,
                        None => " type="@ + a.type_url@ + "\n"@,
                    },
                    None => " <no config>\n"@,
                },
            ),
        ],
        PayloadBody::Control(c) => seq![("CONTROL:"@, Style::BrightMagenta), plain("\n"@)]
            + match c.base_engine_control {
            Some(e) => base_engine_lines(e.control),
            None => seq![plain("\t<unknown>\n"@)],
        },
        PayloadBody::InferenceInput(x) => seq![("INFERENCE_INPUT:"@, Style::BrightBlue), plain("\n"@)]
            + string_body(x.inference_input, "\t<unknown>\n"@),
        PayloadBody::InferenceOutput(x) => seq![("INFERENCE_OUTPUT:"@, Style::BrightBlue), plain("\n"@)]
            + string_body(x.inference_output, "\t<unknown>\n"@),
        PayloadBody::ActionOutput(x) => seq![
            ("ACTION_OUTPUT:"@, Style::BrightYellow),
            plain(" intention_id="@ + signed_decimal(x.intention_id as int) + "\n"@),
        ] + string_body(x.action_output, "\t<unknown>\n"@),
        PayloadBody::AgentInput(x) => seq![("AGENT_INPUT:"@, Style::BrightGreen), plain("\n"@)] + string_body(
            x.agent_input,
            "\t<unknown>\n"@,
        ),
        PayloadBody::AgentOutput(x) => seq![("AGENT_OUTPUT:"@, Style::BrightGreen), plain("\n"@)]
            + string_body(x.agent_output, "\t<unknown>\n"@),
        PayloadBody::Mail(m) => {
            let body = match m.content {
                Some(MailContent::Message(msg)) => msg.body@,
                Some(MailContent::Reply(r)) => match r.message {
                    Some(msg) => msg.body@,
                    None => Seq::empty(),
                },
                None => Seq::empty(),
            };
            seq![
                ("MAIL:"@, Style::BrightCyan),
                plain(" from="@ + m.sender_agent_id@ + "\n"@),
                plain("\t"@),
                (body, Style::WhiteOnBlack),
                plain("\n"@),
            ]
        },
    }
}

/// The text of a timestamp: its UTC form, or the milliseconds when out of
/// range.
pub open spec fn timestamp_text(ms: i64) -> Seq<char> {
    match utc_millis_text(ms) {
        Some(t) => t,
        None => signed_decimal(ms as int) + "ms"@,
    }
}

/// The prefix of an entry: its position, and its timestamp when positive.
pub open spec fn entry_prefix(e: BusEntry) -> Seq<char> {
    let position = match e.header {
        Some(h) => h.log_position,
        None => 0,
    };
    let ts = match e.header {
        Some(h) => h.rt_timestamp_ms,
        None => 0,
    };
    if ts > 0 {
        "[Position "@ + signed_decimal(position as int) + " @ "@ + timestamp_text(ts) + "] "@
    } else {
        "[Position "@ + signed_decimal(position as int) + "] "@
    }
}

/// The segments of an entry: its prefix, then its payload, or `UNKNOWN`.
pub open spec fn entry_display(e: BusEntry) -> Seq<SegmentView> {
    seq![plain(entry_prefix(e))] + match e.payload {
        Some(Payload { payload: Some(b) }) => body_segments(b),
        _ => seq![("UNKNOWN"@, Style::BrightBlack), plain("\n"@)],
    }
}

fn push_seg(out: &mut Vec<Segment>, text: &str, style: Style)
    ensures
        segment_views(final(out)@) == segment_views(old(out)@).push((text@, style)),
{
    let mut t = String::new();
    append_str(&mut t, text);
    out.push(Segment { text: t, style });
    assert(segment_views(out@) =~= segment_views(old(out)@).push((text@, style)));
}

/// The lines of a text, split as `split_lines` says.
pub fn lines_of(s: &str) -> (r: Vec<String>)
    ensures
        r@.map_values(|l: String| l@) == text_lines(s@),
{
    let n = s.unicode_len();
    let mut out: Vec<String> = Vec::new();
    let mut start: usize = 0;
    let mut i: usize = 0;
    while i < n
        invariant
            n == s@.len(),
            start <= i <= n,
            out@.map_values(|l: String| l@) + split_lines(s@, start as int, i as int) == text_lines(s@),
        decreases n - i,
    {
        let c = s.get_char(i);
        if c == '\n' {
            let mut line = s.substring_char(start, i);
            if i > start && s.get_char(i - 1) == '\r' {
                line = s.substring_char(start, i - 1);
                proof {
                    assert(s@.subrange(start as int, i - 1) =~= s@.subrange(start as int, i as int).drop_last());
                }
            }
            let mut l = String::new();
            append_str(&mut l, line);
            let ghost before = out@.map_values(|l: String| l@);
            out.push(l);
            proof {
                assert(out@.map_values(|l: String| l@) =~= before.push(
                    strip_cr(s@.subrange(start as int, i as int)),
                ));
                assert(split_lines(s@, start as int, i as int) == seq![strip_cr(s@.subrange(start as int, i as int))]
                    + split_lines(s@, i + 1, i + 1));
                assert(before.push(strip_cr(s@.subrange(start as int, i as int))) + split_lines(
                    s@,
                    i + 1,
                    i + 1,
                ) =~= before + (seq![strip_cr(s@.subrange(start as int, i as int))] + split_lines(
                    s@,
                    i + 1,
                    i + 1,
                )));
            }
            i += 1;
            start = i;
        } else {
            i += 1;
        }
    }
    if start < n {
        let line = s.substring_char(start, n);
        let mut l = String::new();
        append_str(&mut l, line);
        let ghost before = out@.map_values(|l: String| l@);
        out.push(l);
        proof {
            assert(out@.map_values(|l: String| l@) =~= before.push(s@.subrange(start as int, n as int)));
        }
    } else {
        assert(split_lines(s@, start as int, i as int) =~= Seq::<Seq<char>>::empty());
        assert(out@.map_values(|l: String| l@) =~= out@.map_values(|l: String| l@) + Seq::<Seq<char>>::empty());
    }
    out
}

fn push_lines(out: &mut Vec<Segment>, s: &str)
    ensures
        segment_views(final(out)@) == segment_views(old(out)@) + line_segments(text_lines(s@)),
{
    let lines = lines_of(s);
    let ghost all = lines@.map_values(|l: String| l@);
    let mut i: usize = 0;
    while i < lines.len()
        invariant
            i <= lines@.len(),
            all == lines@.map_values(|l: String| l@),
            all == text_lines(s@),
            segment_views(out@) == segment_views(old(out)@) + line_segments(all.subrange(0, i as int)),
        decreases lines@.len() - i,
    {
        push_seg(out, "\t", Style::Plain);
        push_seg(out, lines[i].as_str(), Style::WhiteOnBlack);
        push_seg(out, "\n", Style::Plain);
        proof {
            let next = all.subrange(0, i + 1);
            assert(next.drop_last() =~= all.subrange(0, i as int));
            assert(next.last() == lines@[i as int]@);
        }
        i += 1;
        proof {
            assert(segment_views(out@) =~= segment_views(old(out)@) + line_segments(all.subrange(0, i as int)));
        }
    }
    assert(all.subrange(0, lines@.len() as int) =~= all);
}

fn push_string_body(out: &mut Vec<Segment>, s: &Option<String>, unknown: &str)
    ensures
        segment_views(final(out)@) == segment_views(old(out)@) + string_body(*s, unknown@),
{
    match s {
        Some(t) => push_lines(out, t.as_str()),
        None => {
            push_seg(out, unknown, Style::Plain);
            assert(segment_views(out@) =~= segment_views(old(out)@) + seq![plain(unknown@)]);
        },
    }
}

/// A one-line description of a voter configuration.
pub fn voter_config_description(config: &VoterConfig) -> (r: String)
    ensures
        r@ == voter_config_description_text(*config),
{
    let mut r = String::new();
    match &config.config {
        Some(VoterConfigKind::Llm(l)) => {
            if l.prompt_override.unicode_len() == 0 {
                append_str(&mut r, "llm");
            } else {
                append_str(&mut r, "llm(prompt_override=");
                let d = debug_quoted(l.prompt_override.as_str());
                append_str(&mut r, d.as_str());
                append_str(&mut r, ")");
            }
        },
        Some(VoterConfigKind::RuleBased(rb)) => {
            append_str(&mut r, "rule_based(rules=");
            append_u64(&mut r, rb.rule_count as u64);
            append_str(&mut r, ")");
        },
        Some(VoterConfigKind::Custom(a)) => {
            append_str(&mut r, "custom(type_url=");
            append_str(&mut r, a.type_url.as_str());
            append_str(&mut r, ")");
        },
        None => append_str(&mut r, "none"),
    }
    r
}

fn opt_config_description_string(c: &Option<VoterConfig>) -> (r: String)
    ensures
        r@ == opt_config_description(*c),
{
    match c {
        Some(x) => voter_config_description(x),
        None => {
            let mut r = String::new();
            append_str(&mut r, "none");
            r
        },
    }
}

fn push_voter_ops(out: &mut Vec<Segment>, l: &VoterOps)
    ensures
        segment_views(final(out)@) == segment_views(old(out)@) + voter_ops_lines(*l),
    decreases l,
{
    match l {
        VoterOps::End => {
            assert(segment_views(out@) =~= segment_views(out@) + voter_ops_lines(*l));
        },
        VoterOps::Entry { voter_id, op, rest } => {
            let mut t = String::new();
            match &op.op {
                Some(VoterOpKind::Add(a)) => {
                    append_str(&mut t, "\t- add_voter voter_id=");
                    append_str(&mut t, voter_id.as_str());
                    append_str(&mut t, " config=");
                    let d = opt_config_description_string(&a.config);
                    append_str(&mut t, d.as_str());
                    append_str(&mut t, "\n");
                },
                Some(VoterOpKind::Remove) => {
                    append_str(&mut t, "\t- remove_voter voter_id=");
                    append_str(&mut t, voter_id.as_str());
                    append_str(&mut t, "\n");
                },
                None => {
                    append_str(&mut t, "\t- voter_op voter_id=");
                    append_str(&mut t, voter_id.as_str());
                    append_str(&mut t, " operation=<empty>\n");
                },
            }
            let ghost before = segment_views(out@);
            push_seg(out, t.as_str(), Style::Plain);
            push_voter_ops(out, &**rest);
            proof {
                assert(segment_views(out@) =~= before + voter_ops_lines(*l));
            }
        },
    }
}

fn push_base_engine(out: &mut Vec<Segment>, op: &Option<BaseEngineOp>)
    ensures
        segment_views(final(out)@) == segment_views(old(out)@) + base_engine_lines(*op),
{
    let ghost before = segment_views(out@);
    match op {
        Some(BaseEngineOp::AddVoter(a)) => {
            let mut t = String::new();
            append_str(&mut t, "\tBaseEngine: add_voter config=");
            let d = opt_config_description_string(&a.config);
            append_str(&mut t, d.as_str());
            append_str(&mut t, "\n");
            push_seg(out, t.as_str(), Style::Plain);
            assert(segment_views(out@) =~= before + base_engine_lines(*op));
        },
        Some(BaseEngineOp::RemoveVoter(r)) => {
            let mut t = String::new();
            append_str(&mut t, "\tBaseEngine: remove_voter voter_id=");
            append_str(&mut t, r.voter_id.as_str());
            append_str(&mut t, "\n");
            push_seg(out, t.as_str(), Style::Plain);
            assert(segment_views(out@) =~= before + base_engine_lines(*op));
        },
        Some(BaseEngineOp::PolicyBatch(b)) => {
            push_seg(out, "\tPolicyBatch:\n", Style::Plain);
            let mut t = String::new();
            append_str(&mut t, "\t- expected_current_version=");
            match b.expected_current_version {
                Some(x) => {
                    append_str(&mut t, "Some(");
                    append_u64(&mut t, x);
                    append_str(&mut t, ")");
                },
                None => append_str(&mut t, "None"),
            }
            append_str(&mut t, "\n");
            assert(t@ =~= "\t- expected_current_version="@ + opt_u64_debug(b.expected_current_version) + "\n"@);
            push_seg(out, t.as_str(), Style::Plain);
            let mut t = String::new();
            append_str(&mut t, "\t- new_version=");
            append_u64(&mut t, b.new_version);
            append_str(&mut t, "\n");
            push_seg(out, t.as_str(), Style::Plain);
            let ghost mid = segment_views(out@);
            match b.decider_policy {
                Some(p) => {
                    let mut t = String::new();
                    append_str(&mut t, "\t- decider_policy=");
                    append_str(&mut t, decider_policy_name(p));
                    append_str(&mut t, "\n");
                    push_seg(out, t.as_str(), Style::Plain);
                },
                None => {},
            }
            let ghost mid2 = segment_views(out@);
            push_voter_ops(out, &b.voter_ops);
            proof {
                let head = seq![
                    plain("\tPolicyBatch:\n"@),
                    plain("\t- expected_current_version="@ + opt_u64_debug(b.expected_current_version) + "\n"@),
                    plain("\t- new_version="@ + decimal(b.new_version as nat) + "\n"@),
                ];
                let policy = match b.decider_policy {
                    Some(p) => seq![plain("\t- decider_policy="@ + decider_policy_name_text(p) + "\n"@)],
                    None => Seq::<SegmentView>::empty(),
                };
                assert(mid =~= before + head);
                assert(mid2 =~= mid + policy);
                assert(segment_views(out@) =~= before + (head + policy + voter_ops_lines(b.voter_ops)));
            }
        },
        None => {
            push_seg(out, "\tBaseEngine: <empty>\n", Style::Plain);
            assert(segment_views(out@) =~= before + base_engine_lines(*op));
        },
    }
}

fn push_header(out: &mut Vec<Segment>, tag: &str, style: Style)
    ensures
        segment_views(final(out)@) == segment_views(old(out)@) + seq![(tag@, style), plain("\n"@)],
{
    let ghost before = segment_views(out@);
    push_seg(out, tag, style);
    push_seg(out, "\n", Style::Plain);
    assert(segment_views(out@) =~= before + seq![(tag@, style), plain("\n"@)]);
}

fn push_body(out: &mut Vec<Segment>, b: &PayloadBody)
    ensures
        segment_views(final(out)@) == segment_views(old(out)@) + body_segments(*b),
{
    let ghost before = segment_views(out@);
    match b {
        PayloadBody::Intention(i) => {
            push_header(out, "INTENTION:", Style::BrightCyan);
            push_string_body(out, &i.intention, "<unknown>\n");
        },
        PayloadBody::Vote(v) => {
            let mut id = String::new();
            append_str(&mut id, " intention_id=");
            append_i64(&mut id, v.intention_id);
            append_str(&mut id, ", vote=");
            match v.abstract_vote {
                Some(VoteType { boolean_vote: Some(yes) }) => {
                    let color = if yes {
                        Style::BrightGreen
                    } else {
                        Style::Red
                    };
                    push_seg(out, "VOTE:", color);
                    push_seg(out, id.as_str(), Style::Plain);
                    push_seg(out, if yes { "true\n" } else { "false\n" }, Style::Plain);
                    let ghost mid = segment_views(out@);
                    if v.reason.unicode_len() > 0 {
                        push_seg(out, "\tReason: ", Style::Plain);
                        push_seg(out, v.reason.as_str(), color);
                        push_seg(out, "\n", Style::Plain);
                    }
                    let ghost mid2 = segment_views(out@);
                    match &v.voter_config {
                        Some(c) => {
                            let mut t = String::new();
                            append_str(&mut t, "\tConfig: ");
                            let d = voter_config_description(c);
                            append_str(&mut t, d.as_str());
                            append_str(&mut t, "\n");
                            push_seg(out, t.as_str(), Style::Plain);
                        },
                        None => {},
                    }
                    proof {
                        assert(mid2 =~= mid + vote_reason_segments(v.reason@, color));
                        assert(segment_views(out@) =~= mid2 + vote_config_segments(v.voter_config));
                        assert(segment_views(out@) =~= before + body_segments(*b));
                    }
                },
                _ => {
                    push_seg(out, "VOTE:", Style::Blue);
                    push_seg(out, id.as_str(), Style::Plain);
                    push_seg(out, "<unknown>\n", Style::Plain);
                    assert(segment_views(out@) =~= before + body_segments(*b));
                },
            }
        },
        PayloadBody::Commit(c) => {
            push_seg(out, "COMMIT:", Style::BrightGreen);
            let mut t = String::new();
            append_str(&mut t, " intention_id=");
            append_i64(&mut t, c.intention_id);
            append_str(&mut t, "\n");
            push_seg(out, t.as_str(), Style::Plain);
            push_seg(out, "\tReason: ", Style::Plain);
            push_seg(out, c.reason.as_str(), Style::BrightGreen);
            push_seg(out, "\n", Style::Plain);
            assert(segment_views(out@) =~= before + body_segments(*b));
        },
        PayloadBody::Abort(a) => {
            push_seg(out, "ABORT:", Style::Red);
            let mut t = String::new();
            append_str(&mut t, " intention_id=");
            append_i64(&mut t, a.intention_id);
            append_str(&mut t, "\n");
            push_seg(out, t.as_str(), Style::Plain);
            push_seg(out, "\tReason: ", Style::Plain);
            push_seg(out, a.reason.as_str(), Style::Red);
            push_seg(out, "\n", Style::Plain);
            assert(segment_views(out@) =~= before + body_segments(*b));
        },
        PayloadBody::DeciderPolicy(p) => {
            push_seg(out, "DECIDER_POLICY:", Style::Yellow);
            let mut t = String::new();
            append_str(&mut t, " ");
            append_str(&mut t, decider_policy_name(*p));
            append_str(&mut t, "\n");
            push_seg(out, t.as_str(), Style::Plain);
            assert(segment_views(out@) =~= before + body_segments(*b));
        },
        PayloadBody::VoterPolicy(p) => {
            push_seg(out, "VOTER_POLICY:", Style::Magenta);
            let mut t = String::new();
            match &p.config {
                Some(a) => match &a.llm_voter_config {
                    Some(l) => {
                        append_str(&mut t, " llm(prompt_override=");
                        let d = debug_quoted(l.prompt_override.as_str());
                        append_str(&mut t, d.as_str());
                        append_str(&mut t, ")\n");
                    },
                    None => {
                        append_str(&mut t, " type=");
                        append_str(&mut t, a.type_url.as_str());
                        append_str(&mut t, "\n");
                    },
                },
                None => append_str(&mut t, " <no config>\n"),
            }
            push_seg(out, t.as_str(), Style::Plain);
            assert(segment_views(out@) =~= before + body_segments(*b));
        },
        PayloadBody::Control(c) => {
            push_header(out, "CONTROL:", Style::BrightMagenta);
            match &c.base_engine_control {
                Some(e) => push_base_engine(out, &e.control),
                None => push_seg(out, "\t<unknown>\n", Style::Plain),
            }
            assert(segment_views(out@) =~= before + body_segments(*b));
        },
        PayloadBody::InferenceInput(x) => {
            push_header(out, "INFERENCE_INPUT:", Style::BrightBlue);
            push_string_body(out, &x.inference_input, "\t<unknown>\n");
        },
        PayloadBody::InferenceOutput(x) => {
            push_header(out, "INFERENCE_OUTPUT:", Style::BrightBlue);
            push_string_body(out, &x.inference_output, "\t<unknown>\n");
        },
        PayloadBody::ActionOutput(x) => {
            push_seg(out, "ACTION_OUTPUT:", Style::BrightYellow);
            let mut t = String::new();
            append_str(&mut t, " intention_id=");
            append_i64(&mut t, x.intention_id);
            append_str(&mut t, "\n");
            push_seg(out, t.as_str(), Style::Plain);
            push_string_body(out, &x.action_output, "\t<unknown>\n");
            assert(segment_views(out@) =~= before + body_segments(*b));
        },
        PayloadBody::AgentInput(x) => {
            push_header(out, "AGENT_INPUT:", Style::BrightGreen);
            push_string_body(out, &x.agent_input, "\t<unknown>\n");
        },
        PayloadBody::AgentOutput(x) => {
            push_header(out, "AGENT_OUTPUT:", Style::BrightGreen);
            push_string_body(out, &x.agent_output, "\t<unknown>\n");
        },
        PayloadBody::Mail(m) => {
            push_seg(out, "MAIL:", Style::BrightCyan);
            let mut t = String::new();
            append_str(&mut t, " from=");
            append_str(&mut t, m.sender_agent_id.as_str());
            append_str(&mut t, "\n");
            push_seg(out, t.as_str(), Style::Plain);
            push_seg(out, "\t", Style::Plain);
            let empty = String::new();
            let body: &str = match &m.content {
                Some(MailContent::Message(msg)) => msg.body.as_str(),
                Some(MailContent::Reply(r)) => match &r.message {
                    Some(msg) => msg.body.as_str(),
                    None => empty.as_str(),
                },
                None => empty.as_str(),
            };
            push_seg(out, body, Style::WhiteOnBlack);
            push_seg(out, "\n", Style::Plain);
            assert(segment_views(out@) =~= before + body_segments(*b));
        },
    }
}

/// The text of a timestamp: its UTC form, or `<ms>ms` when out of range.
pub fn format_timestamp(ms: i64) -> (r: String)
    ensures
        r@ == timestamp_text(ms),
{
    match format_utc_millis(ms) {
        Some(t) => t,
        None => {
            let mut r = String::new();
            append_i64(&mut r, ms);
            append_str(&mut r, "ms");
            r
        },
    }
}

/// The styled segments that show an entry: a `[Position ..]` prefix (with
/// the timestamp when it is positive), then the payload in its kind's form.
pub fn entry_segments(entry: &BusEntry) -> (r: Vec<Segment>)
    requires
        voter_ops_in_order(*entry),
    ensures
        segment_views(r@) == entry_display(*entry),
{
    let (position, ts) = match &entry.header {
        Some(h) => (h.log_position, h.rt_timestamp_ms),
        None => (0i64, 0i64),
    };
    let mut prefix = String::new();
    append_str(&mut prefix, "[Position ");
    append_i64(&mut prefix, position);
    if ts > 0 {
        append_str(&mut prefix, " @ ");
        let t = format_timestamp(ts);
        append_str(&mut prefix, t.as_str());
    }
    append_str(&mut prefix, "] ");
    let mut out: Vec<Segment> = Vec::new();
    push_seg(&mut out, prefix.as_str(), Style::Plain);
    let ghost head = segment_views(out@);
    match &entry.payload {
        Some(Payload { payload: Some(b) }) => push_body(&mut out, b),
        _ => {
            push_seg(&mut out, "UNKNOWN", Style::BrightBlack);
            push_seg(&mut out, "\n", Style::Plain);
        },
    }
    assert(head =~= seq![plain(entry_prefix(*entry))]);
    assert(segment_views(out@) =~= entry_display(*entry));
    out
}

} // verus!
