//! The agent turn loop.
//!
//! One run owns an append-only transcript and repeatedly: polls the
//! cancellation flag, calls the model, and either returns its text or
//! executes the tool calls it issued, strictly in the order issued, each
//! answered by exactly one tool result before the next model call. The model
//! calls and the tool executions happen outside this crate; the loop here is
//! a function of the scripted outcomes: one cancellation flag and one model
//! outcome per turn, and one output per tool call, consumed in order.

use vstd::prelude::*;

use crate::messages::{concat_str, LlmResponse, Message, MessageContent, ProviderError, Role, ToolCall};
use crate::text::{concat_string, string_views};

verus! {

/// Progress updates surfaced while a run is under way. The sink that
/// receives them is side-effect-only: nothing here depends on it.
pub enum AgentProgress {
    /// A tool is about to be executed.
    ToolUse(String),
    /// The model is being called: a new turn is starting.
    Thinking,
}

/// What a finished run reports back.
pub struct AgentResult {
    pub response: String,
    /// Distinct tool names, in first-use order.
    pub tools_used: Vec<String>,
    /// Invocation counts, parallel to `tools_used`.
    pub tools_count: Vec<usize>,
    pub provider: String,
    pub turns: usize,
}

/// What one model call came to: a response and the answering provider's
/// name, or the pool's terminal error.
pub type ModelOutcome = Result<(LlmResponse, String), ProviderError>;

// ---------------------------------------------------------------------------
// The run as spec functions over the scripted outcomes.
// ---------------------------------------------------------------------------

/// The shape of one transcript message: everything a reader can check,
/// with text at the character level.
pub enum MessageShape {
    Plain { role: Role, text: Seq<char> },
    ToolUse { role: Role, text_opt: Option<Seq<char>>, calls: Seq<ToolCall> },
    ToolAnswer { role: Role, id: Seq<char>, name: Seq<char>, text: Seq<char> },
}

pub open spec fn shape_of(m: Message) -> MessageShape {
    match m.content {
        MessageContent::Text(s) => MessageShape::Plain { role: m.role, text: s@ },
        MessageContent::AssistantWithToolCalls { text, tool_calls } => MessageShape::ToolUse {
            role: m.role,
            text_opt: match text {
                Some(t) => Some(t@),
                None => None,
            },
            calls: tool_calls@,
        },
        MessageContent::ToolResult { tool_call_id, name, content } => MessageShape::ToolAnswer {
            role: m.role,
            id: tool_call_id@,
            name: name@,
            text: content@,
        },
    }
}

/// The shapes of a message sequence, element by element.
pub open spec fn shapes_seq(ms: Seq<Message>) -> Seq<MessageShape> {
    ms.map_values(|m: Message| shape_of(m))
}

/// Whether the loop stops at turn `t`: the flag was set, the pool failed
/// terminally, or the model answered without tool calls.
pub open spec fn stops_at(cancelled: Seq<bool>, models: Seq<ModelOutcome>, t: int) -> bool {
    ||| cancelled[t]
    ||| models[t] is Err
    ||| (models[t] matches Ok(p) && p.0.tool_calls@.len() == 0)
}

/// The first turn at or after `t` at which the loop stops, or `max_turns`
/// when the budget runs out first.
pub open spec fn stop_turn(
    cancelled: Seq<bool>,
    models: Seq<ModelOutcome>,
    max_turns: int,
    t: int,
) -> int
    decreases max_turns - t,
{
    if t >= max_turns {
        max_turns
    } else if stops_at(cancelled, models, t) {
        t
    } else {
        stop_turn(cancelled, models, max_turns, t + 1)
    }
}

/// The tool names one model outcome asks for, in issued order.
pub open spec fn names_of(m: ModelOutcome) -> Seq<Seq<char>> {
    match m {
        Ok(p) => Seq::new(p.0.tool_calls@.len(), |j: int| p.0.tool_calls@[j].name@),
        Err(_) => Seq::empty(),
    }
}

/// All tool names invoked during the first `upto` full turns, in invocation
/// order.
pub open spec fn invoked_names(models: Seq<ModelOutcome>, upto: int) -> Seq<Seq<char>>
    decreases upto,
{
    if upto <= 0 {
        Seq::empty()
    } else {
        invoked_names(models, upto - 1) + names_of(models[upto - 1])
    }
}

/// The messages one full turn appends: the assistant's tool-call message,
/// then one tool result per call, in the order issued, drawing outputs from
/// `outs` starting at `off`.
pub open spec fn block_of(m: ModelOutcome, outs: Seq<Seq<char>>, off: int) -> Seq<MessageShape> {
    match m {
        Ok(p) => seq![
            MessageShape::ToolUse {
                role: Role::Assistant,
                text_opt: match p.0.content {
                    Some(t) => Some(t@),
                    None => None,
                },
                calls: p.0.tool_calls@,
            },
        ] + Seq::new(
            p.0.tool_calls@.len(),
            |j: int|
                MessageShape::ToolAnswer {
                    role: Role::Tool,
                    id: p.0.tool_calls@[j].id@,
                    name: p.0.tool_calls@[j].name@,
                    text: outs[off + j],
                },
        ),
        Err(_) => Seq::empty(),
    }
}

/// Everything the first `upto` full turns append to the transcript.
pub open spec fn turn_blocks(models: Seq<ModelOutcome>, outs: Seq<Seq<char>>, upto: int) -> Seq<
    MessageShape,
>
    decreases upto,
{
    if upto <= 0 {
        Seq::empty()
    } else {
        turn_blocks(models, outs, upto - 1) + block_of(
            models[upto - 1],
            outs,
            invoked_names(models, upto - 1).len() as int,
        )
    }
}

/// The transcript a run starts from: the system prompt, the prior history,
/// then the new user message.
pub open spec fn base_shapes(
    system_prompt: Seq<char>,
    history: Seq<Message>,
    user: MessageContent,
) -> Seq<MessageShape> {
    seq![MessageShape::Plain { role: Role::System, text: system_prompt }] + shapes_seq(history)
        + seq![shape_of(Message { role: Role::User, content: user })]
}

pub open spec fn shape_role(s: MessageShape) -> Role {
    match s {
        MessageShape::Plain { role, .. } => role,
        MessageShape::ToolUse { role, .. } => role,
        MessageShape::ToolAnswer { role, .. } => role,
    }
}

/// The text a reader attributes to a message of this shape, as
/// `MessageContent::spec_text` does.
pub open spec fn shape_text(s: MessageShape) -> Seq<char> {
    match s {
        MessageShape::Plain { text, .. } => text,
        MessageShape::ToolUse { text_opt, .. } => match text_opt {
            Some(t) => t,
            None => Seq::empty(),
        },
        MessageShape::ToolAnswer { text, .. } => text,
    }
}

/// The text of the last assistant message in a transcript, scanned from the
/// end, or `None` when no assistant has spoken yet.
pub open spec fn shapes_assistant(shapes: Seq<MessageShape>) -> Option<Seq<char>>
    decreases shapes.len(),
{
    if shapes.len() == 0 {
        None
    } else if shape_role(shapes.last()) == Role::Assistant {
        Some(shape_text(shapes.last()))
    } else {
        shapes_assistant(shapes.drop_last())
    }
}

/// The last assistant message of the prior history, if any.
pub open spec fn history_assistant(history: Seq<Message>) -> Option<Seq<char>>
    decreases history.len(),
{
    if history.len() == 0 {
        None
    } else if history.last().role == Role::Assistant {
        Some(history.last().content.spec_text())
    } else {
        history_assistant(history.drop_last())
    }
}

/// The most recent assistant text at the start of turn `upto`: the text of
/// the model's answer at turn `upto - 1`, or, before any turn completed, the
/// last assistant message of the prior history.
pub open spec fn run_last_assistant(
    history: Seq<Message>,
    models: Seq<ModelOutcome>,
    upto: int,
) -> Option<Seq<char>> {
    if upto > 0 {
        match models[upto - 1] {
            Ok(p) => Some(
                match p.0.content {
                    Some(t) => t@,
                    None => Seq::empty(),
                },
            ),
            Err(_) => Some(Seq::empty()),
        }
    } else {
        history_assistant(history)
    }
}

/// The provider that answered most recently, or no name at all before the
/// first answer.
pub open spec fn last_provider_name(models: Seq<ModelOutcome>, upto: int) -> Seq<char> {
    if upto > 0 {
        match models[upto - 1] {
            Ok(p) => p.1@,
            Err(_) => Seq::empty(),
        }
    } else {
        Seq::empty()
    }
}

/// What a cancelled run answers: the most recent assistant text with the
/// cancellation notice appended, or the bare notice when there is none.
pub open spec fn cancel_response(last: Option<Seq<char>>) -> Seq<char> {
    match last {
        Some(t) => if t.len() == 0 {
            "Query đã bị dừng."@
        } else {
            t + "\n\n_— Query đã bị dừng._"@
        },
        None => "Query đã bị dừng."@,
    }
}

/// What a budget-exhausted run answers: the most recent assistant text, or
/// the fixed limit notice when no assistant ever spoke.
pub open spec fn budget_response(last: Option<Seq<char>>) -> Seq<char> {
    match last {
        Some(t) => t,
        None => "Reached max processing limit. Please try again."@,
    }
}

// ---------------------------------------------------------------------------
// Lemmas about the run model.
// ---------------------------------------------------------------------------

/// A message keeps its role and its readable text in its shape.
proof fn lemma_shape_of_fields(m: Message)
    ensures
        shape_role(shape_of(m)) == m.role,
        shape_text(shape_of(m)) == m.content.spec_text(),
{
    match m.content {
        MessageContent::Text(_) => {},
        MessageContent::AssistantWithToolCalls { .. } => {},
        MessageContent::ToolResult { .. } => {},
    }
}

/// Messages in which no assistant speaks do not change what the backward
/// scan finds.
proof fn lemma_scan_skip_tail(s: Seq<MessageShape>, tail: Seq<MessageShape>)
    requires
        forall|i: int| 0 <= i < tail.len() ==> shape_role(#[trigger] tail[i]) != Role::Assistant,
    ensures
        shapes_assistant(s + tail) == shapes_assistant(s),
    decreases tail.len(),
{
    if tail.len() > 0 {
        assert((s + tail).drop_last() =~= s + tail.drop_last());
        assert((s + tail).last() == tail.last());
        lemma_scan_skip_tail(s, tail.drop_last());
    } else {
        assert(s + tail =~= s);
    }
}

/// Scanning past the system prompt lands on the history's own last
/// assistant message.
proof fn lemma_scan_sys_history(sp: Seq<char>, h: Seq<Message>)
    ensures
        shapes_assistant(
            seq![MessageShape::Plain { role: Role::System, text: sp }] + shapes_seq(h),
        ) == history_assistant(h),
    decreases h.len(),
{
    let s = seq![MessageShape::Plain { role: Role::System, text: sp }] + shapes_seq(h);
    if h.len() == 0 {
        assert(s.len() == 1);
        assert(s.last() == MessageShape::Plain { role: Role::System, text: sp });
        assert(shape_role(s.last()) == Role::System);
        assert(s.drop_last() =~= Seq::<MessageShape>::empty());
        assert(shapes_assistant(s) is None);
    } else {
        assert(s.last() == shape_of(h.last()));
        lemma_shape_of_fields(h.last());
        if h.last().role != Role::Assistant {
            assert(s.drop_last() =~= seq![MessageShape::Plain { role: Role::System, text: sp }]
                + shapes_seq(h.drop_last()));
            lemma_scan_sys_history(sp, h.drop_last());
        }
    }
}

/// What the backward scan of the whole transcript finds after `t` full
/// turns: the text of turn `t - 1`'s answer, or the history's last
/// assistant message before any turn completed.
proof fn lemma_transcript_last_assistant(
    sp: Seq<char>,
    h: Seq<Message>,
    u: MessageContent,
    models: Seq<ModelOutcome>,
    outs: Seq<Seq<char>>,
    t: int,
)
    requires
        t >= 0,
        forall|x: int| 0 <= x < t ==> (#[trigger] models[x]) is Ok,
    ensures
        shapes_assistant(base_shapes(sp, h, u) + turn_blocks(models, outs, t))
            == run_last_assistant(h, models, t),
{
    let base = base_shapes(sp, h, u);
    if t == 0 {
        assert(base + turn_blocks(models, outs, 0) =~= base);
        let user_msg = Message { role: Role::User, content: u };
        lemma_shape_of_fields(user_msg);
        let head = seq![MessageShape::Plain { role: Role::System, text: sp }] + shapes_seq(h);
        assert(base =~= head + seq![shape_of(user_msg)]);
        lemma_scan_skip_tail(head, seq![shape_of(user_msg)]);
        lemma_scan_sys_history(sp, h);
    } else {
        let p = models[t - 1]->Ok_0;
        let off = invoked_names(models, t - 1).len() as int;
        let block = block_of(models[t - 1], outs, off);
        let head = seq![
            MessageShape::ToolUse {
                role: Role::Assistant,
                text_opt: match p.0.content {
                    Some(tx) => Some(tx@),
                    None => None,
                },
                calls: p.0.tool_calls@,
            },
        ];
        let answers = Seq::new(
            p.0.tool_calls@.len(),
            |j: int|
                MessageShape::ToolAnswer {
                    role: Role::Tool,
                    id: p.0.tool_calls@[j].id@,
                    name: p.0.tool_calls@[j].name@,
                    text: outs[off + j],
                },
        );
        assert(block == head + answers);
        let upto_tu = base + turn_blocks(models, outs, t - 1) + head;
        assert(base + turn_blocks(models, outs, t) =~= upto_tu + answers);
        lemma_scan_skip_tail(upto_tu, answers);
        assert(upto_tu.last() == head[0]);
        assert(shapes_assistant(upto_tu) == Some(shape_text(head[0])));
    }
}

/// Appending one message appends its shape.
proof fn lemma_shapes_push(s: Seq<Message>, m: Message)
    ensures
        shapes_seq(s.push(m)) =~= shapes_seq(s).push(shape_of(m)),
{
}

/// Appending one string appends its characters.
proof fn lemma_views_push(s: Seq<String>, x: String)
    ensures
        string_views(s.push(x)) =~= string_views(s).push(x@),
{
}

/// The loop consumes tool outputs monotonically: earlier turns never need
/// more than later ones.
proof fn lemma_invoked_len_mono(models: Seq<ModelOutcome>, a: int, b: int)
    requires
        a <= b,
    ensures
        invoked_names(models, a).len() <= invoked_names(models, b).len(),
    decreases b - a,
{
    if a < b {
        lemma_invoked_len_mono(models, a, b - 1);
    }
}

proof fn lemma_stop_turn_skip(
    cancelled: Seq<bool>,
    models: Seq<ModelOutcome>,
    max_turns: int,
    k: int,
)
    requires
        0 <= k <= max_turns,
        forall|v: int| 0 <= v < k ==> !stops_at(cancelled, models, v),
    ensures
        stop_turn(cancelled, models, max_turns, 0) == stop_turn(cancelled, models, max_turns, k),
    decreases k,
{
    if k > 0 {
        lemma_stop_turn_skip(cancelled, models, max_turns, k - 1);
    }
}

/// The run stops at the first turn whose script stops it — at the flag, the
/// terminal pool error or the tool-call-free answer — or exhausts the
/// budget when no turn does.
pub proof fn lemma_stop_turn_first(
    cancelled: Seq<bool>,
    models: Seq<ModelOutcome>,
    max_turns: int,
    t: int,
)
    requires
        0 <= t <= max_turns,
        forall|v: int| 0 <= v < t ==> !stops_at(cancelled, models, v),
        t < max_turns ==> stops_at(cancelled, models, t),
    ensures
        stop_turn(cancelled, models, max_turns, 0) == t,
{
    lemma_stop_turn_skip(cancelled, models, max_turns, t);
}

/// A run whose first model answer carries no tool calls stops at once:
/// the stop falls on the very first turn, and a usage summary drawn from
/// the tools invoked by then is empty.
pub proof fn lemma_plain_first_answer(
    cancelled: Seq<bool>,
    models: Seq<ModelOutcome>,
    max_turns: int,
    names: Seq<String>,
    counts: Seq<usize>,
)
    requires
        max_turns >= 1,
        !cancelled[0],
        models[0] matches Ok(p) && p.0.tool_calls@.len() == 0,
        usage_summary_ok(
            names,
            counts,
            invoked_names(models, stop_turn(cancelled, models, max_turns, 0)),
        ),
    ensures
        stop_turn(cancelled, models, max_turns, 0) == 0,
        names.len() == 0,
        counts.len() == 0,
{
    lemma_stop_turn_first(cancelled, models, max_turns, 0);
    assert(invoked_names(models, 0) =~= Seq::<Seq<char>>::empty());
    assert(string_views(names).len() == names.len());
}

/// A run in which every budgeted turn keeps requesting tools never stops
/// early: the turn budget itself ends it.
pub proof fn lemma_budget_exhaustion(cancelled: Seq<bool>, models: Seq<ModelOutcome>, max_turns: int)
    requires
        max_turns >= 0,
        forall|t: int| 0 <= t < max_turns ==> !stops_at(cancelled, models, t),
    ensures
        stop_turn(cancelled, models, max_turns, 0) == max_turns,
{
    lemma_stop_turn_first(cancelled, models, max_turns, max_turns);
}

// ---------------------------------------------------------------------------
// Tool-usage accounting.
// ---------------------------------------------------------------------------

/// The distinct names among `names[..i]`, in first-occurrence order.
pub open spec fn distinct_prefix(names: Seq<Seq<char>>, i: int) -> Seq<Seq<char>>
    decreases i,
{
    if i <= 0 {
        Seq::empty()
    } else {
        let p = distinct_prefix(names, i - 1);
        if p.contains(names[i - 1]) {
            p
        } else {
            p.push(names[i - 1])
        }
    }
}

/// How many of `names[..i]` equal `x`.
pub open spec fn count_in(names: Seq<Seq<char>>, x: Seq<char>, i: int) -> nat
    decreases i,
{
    if i <= 0 {
        0
    } else {
        count_in(names, x, i - 1) + if names[i - 1] == x {
            1nat
        } else {
            0nat
        }
    }
}

/// A name outside the distinct prefix never occurred in the prefix at all.
proof fn lemma_unseen_count_zero(names: Seq<Seq<char>>, x: Seq<char>, i: int)
    requires
        !distinct_prefix(names, i).contains(x),
    ensures
        count_in(names, x, i) == 0,
    decreases i,
{
    if i > 0 {
        let p = distinct_prefix(names, i - 1);
        let q = distinct_prefix(names, i);
        if names[i - 1] == x {
            if p.contains(x) {
                assert(q.contains(x));
            } else {
                assert(q == p.push(x));
                assert(q[p.len() as int] == x);
                assert(q.contains(x));
            }
            assert(false);
        }
        if p.contains(x) {
            let m = choose|m: int| 0 <= m < p.len() && p[m] == x;
            if p.contains(names[i - 1]) {
                assert(q.contains(x));
            } else {
                assert(q == p.push(names[i - 1]));
                assert(q[m] == x);
                assert(q.contains(x));
            }
            assert(false);
        }
        lemma_unseen_count_zero(names, x, i - 1);
    }
}

/// Deduplicate tool names while counting occurrences: distinct names in
/// first-use order, each with its exact invocation count.
pub fn dedup_with_counts(tools: &Vec<String>) -> (r: (Vec<String>, Vec<usize>))
    ensures
        usage_summary_ok(r.0@, r.1@, string_views(tools@)),
{
    let ghost raw = string_views(tools@);
    let mut names: Vec<String> = Vec::new();
    let mut counts: Vec<usize> = Vec::new();
    let mut i: usize = 0;
    while i < tools.len()
        invariant
            raw == string_views(tools@),
            raw.len() == tools@.len(),
            i <= tools@.len(),
            names@.len() == counts@.len(),
            string_views(names@) =~= distinct_prefix(raw, i as int),
            forall|j: int|
                0 <= j < names@.len() ==> counts@[j] == count_in(
                    raw,
                    string_views(names@)[j],
                    i as int,
                ),
            forall|j: int| 0 <= j < names@.len() ==> counts@[j] <= i,
            forall|a: int, b: int|
                0 <= a < b < names@.len() ==> names@[a]@ != names@[b]@,
        decreases tools@.len() - i,
    {
        let t = &tools[i];
        let mut k: usize = 0;
        let mut found: bool = false;
        while k < names.len() && !found
            invariant
                k <= names@.len(),
                found ==> k < names@.len() && names@[k as int]@ == t@,
                !found ==> forall|m: int| 0 <= m < k ==> names@[m]@ != t@,
            decreases names@.len() - k + if found {
                0int
            } else {
                1int
            },
        {
            if crate::text::str_eq(names[k].as_str(), t.as_str()) {
                found = true;
            } else {
                k += 1;
            }
        }
        proof {
            assert(raw[i as int] == t@);
        }
        if found {
            let c = counts[k];
            counts.set(k, c + 1);
            proof {
                let views = string_views(names@);
                assert(distinct_prefix(raw, i as int).contains(raw[i as int])) by {
                    assert(views[k as int] == raw[i as int]);
                }
                assert(views =~= distinct_prefix(raw, i as int + 1));
                assert forall|j: int| 0 <= j < names@.len() implies counts@[j] == count_in(
                    raw,
                    views[j],
                    i as int + 1,
                ) by {
                    if j != k {
                        assert(views[j] != raw[i as int]);
                    }
                }
            }
        } else {
            names.push(t.clone());
            counts.push(1);
            proof {
                let p = distinct_prefix(raw, i as int);
                assert(!p.contains(raw[i as int])) by {
                    if p.contains(raw[i as int]) {
                        let m = choose|m: int| 0 <= m < p.len() && p[m] == raw[i as int];
                        assert(string_views(names@)[m] == raw[i as int]);
                    }
                }
                lemma_unseen_count_zero(raw, raw[i as int], i as int);
                let views = string_views(names@);
                assert(views =~= p.push(raw[i as int]));
                assert forall|j: int| 0 <= j < views.len() implies counts@[j] == count_in(
                    raw,
                    views[j],
                    i as int + 1,
                ) by {
                    if j < views.len() - 1 {
                        assert(p.contains(views[j]));
                        assert(views[j] != raw[i as int]);
                    }
                }
            }
        }
        i += 1;
    }
    proof {
        assert(string_views(names@) =~= distinct_prefix(raw, raw.len() as int));
    }
    (names, counts)
}

/// A correct usage report for the given invocation sequence: the distinct
/// names in first-use order, each with its exact multiplicity.
pub open spec fn usage_summary_ok(
    names: Seq<String>,
    counts: Seq<usize>,
    invoked: Seq<Seq<char>>,
) -> bool {
    let views = string_views(names);
    &&& views == distinct_prefix(invoked, invoked.len() as int)
    &&& counts.len() == names.len()
    &&& forall|j: int|
        0 <= j < names.len() ==> counts[j] == count_in(invoked, views[j], invoked.len() as int)
}

/// The text of the most recent assistant message in the transcript, found
/// by scanning backward, as the cancellation and budget paths report it.
pub fn last_assistant_from(messages: &Vec<Message>) -> (r: Option<String>)
    ensures
        match r {
            Some(s) => shapes_assistant(shapes_seq(messages@)) == Some(s@),
            None => shapes_assistant(shapes_seq(messages@)) is None,
        },
{
    let ghost shapes = shapes_seq(messages@);
    let mut i: usize = messages.len();
    proof {
        assert(shapes.take(messages@.len() as int) =~= shapes);
    }
    while i > 0
        invariant
            i <= messages@.len(),
            shapes == shapes_seq(messages@),
            shapes_assistant(shapes.take(i as int)) == shapes_assistant(shapes),
        decreases i,
    {
        i = i - 1;
        proof {
            lemma_shape_of_fields(messages@[i as int]);
            assert(shapes[i as int] == shape_of(messages@[i as int]));
            assert(shapes.take(i as int + 1).last() == shapes[i as int]);
            assert(shapes.take(i as int + 1).drop_last() =~= shapes.take(i as int));
        }
        if matches!(messages[i].role, Role::Assistant) {
            let text = messages[i].content.as_text().to_owned();
            proof {
                assert(shape_role(shapes[i as int]) == Role::Assistant);
                assert(shapes_assistant(shapes.take(i as int + 1)) == Some(
                    shape_text(shapes[i as int]),
                ));
            }
            return Some(text);
        }
    }
    proof {
        assert(shapes.take(0) =~= Seq::<MessageShape>::empty());
    }
    None
}

/// Everything one run leaves behind: the verdict, the full transcript, and
/// how many model calls were made.
pub struct RunRecord {
    pub outcome: Result<AgentResult, String>,
    pub transcript: Vec<Message>,
    pub model_calls: usize,
}

pub struct AgentLoop;

impl AgentLoop {
    /// Drive one run of the turn loop over scripted outcomes: `cancelled[t]`
    /// is the flag polled at the start of turn `t`, `models[t]` is what the
    /// pool answers at turn `t`, and `tool_outputs` are consumed one per
    /// tool call, in the order the calls are issued. The caller provides one
    /// flag and one model outcome per budgeted turn, and one output per tool
    /// call the script can demand.
    #[verifier::loop_isolation(false)]
    pub fn run(
        system_prompt: &str,
        user_content: MessageContent,
        history: Vec<Message>,
        max_turns: usize,
        cancelled: &Vec<bool>,
        models: &Vec<ModelOutcome>,
        tool_outputs: &Vec<String>,
    ) -> (r: RunRecord)
        requires
            cancelled@.len() >= max_turns,
            models@.len() >= max_turns,
            tool_outputs@.len() >= invoked_names(models@, max_turns as int).len(),
        ensures
            ({
                let outs = string_views(tool_outputs@);
                let st = stop_turn(cancelled@, models@, max_turns as int, 0);
                let invoked = invoked_names(models@, st);
                &&& shapes_seq(r.transcript@) == base_shapes(
                    system_prompt@,
                    history@,
                    user_content,
                ) + turn_blocks(models@, outs, st)
                &&& r.model_calls as int == if st < max_turns && cancelled@[st] {
                    st
                } else if st < max_turns {
                    st + 1
                } else {
                    st
                }
                &&& if st < max_turns && cancelled@[st] {
                    r.outcome matches Ok(res) && {
                        &&& res.turns == st
                        &&& res.provider@ == last_provider_name(models@, st)
                        &&& res.response@ == cancel_response(
                            run_last_assistant(history@, models@, st),
                        )
                        &&& usage_summary_ok(res.tools_used@, res.tools_count@, invoked)
                    }
                } else if st < max_turns && models@[st] is Err {
                    models@[st] matches Err(e) && (r.outcome matches Err(m) && m@ == "LLM error: "@
                        + e.spec_describe())
                } else if st < max_turns {
                    r.outcome matches Ok(res) && (models@[st] matches Ok(p) && {
                        &&& res.turns == st + 1
                        &&& res.provider@ == p.1@
                        &&& res.response@ == match p.0.content {
                            Some(c) => c@,
                            None => Seq::<char>::empty(),
                        }
                        &&& usage_summary_ok(res.tools_used@, res.tools_count@, invoked)
                    })
                } else {
                    r.outcome matches Ok(res) && {
                        &&& res.turns == max_turns
                        &&& res.provider@ == last_provider_name(models@, max_turns as int)
                        &&& res.response@ == budget_response(
                            run_last_assistant(history@, models@, max_turns as int),
                        )
                        &&& usage_summary_ok(res.tools_used@, res.tools_count@, invoked)
                    }
                }
            }),
    {
        let ghost h0 = history@;
        let ghost uc0 = user_content;
        let ghost outs = string_views(tool_outputs@);
        let ghost mt = max_turns as int;
        let ghost base = base_shapes(system_prompt@, h0, uc0);
        let n_outs = tool_outputs.len();

        let mut messages: Vec<Message> = Vec::new();
        messages.push(
            Message { role: Role::System, content: MessageContent::Text(system_prompt.to_owned()) },
        );
        let mut prior = history;
        messages.append(&mut prior);
        messages.push(Message { role: Role::User, content: user_content });
        proof {
            assert(shapes_seq(messages@) =~= base);
            assert(base + turn_blocks(models@, outs, 0) =~= base);
        }

        let mut tools_used: Vec<String> = Vec::new();
        let mut last_provider: String = String::new();
        let mut out_i: usize = 0;
        let mut t: usize = 0;
        let mut model_calls: usize = 0;

        while t < max_turns
            invariant
                t <= max_turns,
                cancelled@.len() >= max_turns,
                models@.len() >= max_turns,
                n_outs == tool_outputs@.len(),
                tool_outputs@.len() >= invoked_names(models@, mt).len(),
                outs == string_views(tool_outputs@),
                mt == max_turns as int,
                base == base_shapes(system_prompt@, h0, uc0),
                forall|v: int| 0 <= v < t ==> !stops_at(cancelled@, models@, v),
                stop_turn(cancelled@, models@, mt, 0) == stop_turn(cancelled@, models@, mt, t as int),
                shapes_seq(messages@) == base + turn_blocks(models@, outs, t as int),
                string_views(tools_used@) == invoked_names(models@, t as int),
                out_i == invoked_names(models@, t as int).len(),
                last_provider@ == last_provider_name(models@, t as int),
                model_calls == t,
            decreases max_turns - t,
        {
            if cancelled[t] {
                proof {
                    assert(stops_at(cancelled@, models@, t as int));
                    assert(stop_turn(cancelled@, models@, mt, 0) == t as int);
                    assert forall|x: int| 0 <= x < t implies (#[trigger] models@[x]) is Ok by {
                        assert(!stops_at(cancelled@, models@, x));
                    }
                    lemma_transcript_last_assistant(
                        system_prompt@,
                        h0,
                        uc0,
                        models@,
                        outs,
                        t as int,
                    );
                }
                let last = last_assistant_from(&messages);
                let response: String = match last {
                    Some(lt) => {
                        if lt.as_str().is_empty() {
                            "Query đã bị dừng.".to_owned()
                        } else {
                            concat_string(lt, "\n\n_— Query đã bị dừng._")
                        }
                    },
                    None => "Query đã bị dừng.".to_owned(),
                };
                let (deduped, counts) = dedup_with_counts(&tools_used);
                proof {
                    let st = stop_turn(cancelled@, models@, mt, 0);
                    assert(st == t as int);
                    assert(shapes_seq(messages@) == base + turn_blocks(models@, outs, st));
                    assert(usage_summary_ok(deduped@, counts@, invoked_names(models@, st)));
                    assert(last_provider@ == last_provider_name(models@, st));
                    assert(response@ == cancel_response(run_last_assistant(h0, models@, st)));
                    assert(base_shapes(system_prompt@, h0, uc0) == base);
                    assert(model_calls as int == st);
                }
                return RunRecord {
                    outcome: Ok(
                        AgentResult {
                            response,
                            tools_used: deduped,
                            tools_count: counts,
                            provider: last_provider,
                            turns: t,
                        },
                    ),
                    transcript: messages,
                    model_calls,
                };
            }
            model_calls = model_calls + 1;
            match &models[t] {
                Err(e) => {
                    proof {
                        assert(stops_at(cancelled@, models@, t as int));
                        assert(stop_turn(cancelled@, models@, mt, 0) == t as int);
                    }
                    let msg = e.describe();
                    let err_text = concat_str("LLM error: ", msg.as_str());
                    proof {
                        let st = stop_turn(cancelled@, models@, mt, 0);
                        assert(st == t as int);
                        assert(models@[st] is Err);
                        assert(err_text@ == "LLM error: "@ + e.spec_describe());
                        assert(shapes_seq(messages@) == base + turn_blocks(models@, outs, st));
                        assert(model_calls as int == st + 1);
                    }
                    return RunRecord {
                        outcome: Err(err_text),
                        transcript: messages,
                        model_calls,
                    };
                },
                Ok((resp, prov)) => {
                    last_provider = prov.clone();
                    if resp.tool_calls.len() == 0 {
                        proof {
                            assert(stops_at(cancelled@, models@, t as int));
                            assert(stop_turn(cancelled@, models@, mt, 0) == t as int);
                        }
                        let response: String = match &resp.content {
                            Some(c) => c.clone(),
                            None => String::new(),
                        };
                        let (deduped, counts) = dedup_with_counts(&tools_used);
                        return RunRecord {
                            outcome: Ok(
                                AgentResult {
                                    response,
                                    tools_used: deduped,
                                    tools_count: counts,
                                    provider: last_provider,
                                    turns: t + 1,
                                },
                            ),
                            transcript: messages,
                            model_calls,
                        };
                    }
                    let ghost off = invoked_names(models@, t as int).len() as int;
                    let ghost block = block_of(models@[t as int], outs, off);
                    let assistant_content = MessageContent::AssistantWithToolCalls {
                        text: match &resp.content {
                            Some(c) => Some(c.clone()),
                            None => None,
                        },
                        tool_calls: crate::messages::clone_tool_calls(&resp.tool_calls),
                    };
                    let ghost assistant_msg = Message {
                        role: Role::Assistant,
                        content: assistant_content,
                    };
                    messages.push(Message { role: Role::Assistant, content: assistant_content });
                    proof {
                        assert(shape_of(assistant_msg) == block[0]);
                        assert(block.take(1) =~= seq![block[0]]);
                        assert(shapes_seq(messages@) =~= base + turn_blocks(
                            models@,
                            outs,
                            t as int,
                        ) + block.take(1));
                        lemma_invoked_len_mono(models@, t as int + 1, mt);
                        assert(invoked_names(models@, t as int + 1).len() == off + names_of(
                            models@[t as int],
                        ).len());
                    }
                    let mut j: usize = 0;
                    while j < resp.tool_calls.len()
                        invariant
                            j <= resp.tool_calls@.len(),
                            t < max_turns,
                            cancelled@.len() >= max_turns,
                            models@.len() >= max_turns,
                            n_outs == tool_outputs@.len(),
                            tool_outputs@.len() >= invoked_names(models@, mt).len(),
                            outs == string_views(tool_outputs@),
                            mt == max_turns as int,
                            models@[t as int] matches Ok(p) && p.0 == *resp && p.1 == *prov,
                            resp.tool_calls@.len() > 0,
                            off == invoked_names(models@, t as int).len() as int,
                            block == block_of(models@[t as int], outs, off),
                            invoked_names(models@, t as int + 1).len() <= invoked_names(
                                models@,
                                mt,
                            ).len(),
                            shapes_seq(messages@) =~= base + turn_blocks(
                                models@,
                                outs,
                                t as int,
                            ) + block.take(1 + j as int),
                            string_views(tools_used@) =~= invoked_names(
                                models@,
                                t as int,
                            ) + names_of(models@[t as int]).take(j as int),
                            out_i == off + j,
                        decreases resp.tool_calls@.len() - j,
                    {
                        proof {
                            assert(names_of(models@[t as int]).len() == resp.tool_calls@.len());
                            assert(out_i < tool_outputs@.len());
                        }
                        let ghost tu0 = tools_used@;
                        let ghost ms0 = messages@;
                        let tc = &resp.tool_calls[j];
                        tools_used.push(tc.name.clone());
                        let output = tool_outputs[out_i].clone();
                        out_i = out_i + 1;
                        messages.push(
                            Message {
                                role: Role::Tool,
                                content: MessageContent::ToolResult {
                                    tool_call_id: tc.id.clone(),
                                    name: tc.name.clone(),
                                    content: output,
                                },
                            },
                        );
                        proof {
                            let answer = messages@.last();
                            assert(messages@ == ms0.push(answer));
                            lemma_shapes_push(ms0, answer);
                            assert(block[1 + j as int] == MessageShape::ToolAnswer {
                                role: Role::Tool,
                                id: resp.tool_calls@[j as int].id@,
                                name: resp.tool_calls@[j as int].name@,
                                text: outs[off + j as int],
                            });
                            assert(outs[off + j as int] == tool_outputs@[off + j as int]@);
                            assert(shape_of(answer) == block[1 + j as int]);
                            assert(block.take(1 + j as int + 1) =~= block.take(1 + j as int).push(
                                block[1 + j as int],
                            ));
                            assert(shapes_seq(messages@) =~= base + turn_blocks(
                                models@,
                                outs,
                                t as int,
                            ) + block.take(1 + j as int + 1));
                            let pushed_name = tools_used@.last();
                            assert(tools_used@ == tu0.push(pushed_name));
                            lemma_views_push(tu0, pushed_name);
                            assert(pushed_name@ == names_of(models@[t as int])[j as int]);
                            assert(names_of(models@[t as int]).take(j as int + 1) =~= names_of(
                                models@[t as int],
                            ).take(j as int).push(names_of(models@[t as int])[j as int]));
                            assert(string_views(tools_used@) =~= invoked_names(
                                models@,
                                t as int,
                            ) + names_of(models@[t as int]).take(j as int + 1));
                        }
                        j = j + 1;
                    }
                    proof {
                        assert(block.take(1 + j as int) =~= block);
                        assert(shapes_seq(messages@) =~= base + turn_blocks(
                            models@,
                            outs,
                            t as int + 1,
                        ));
                        assert(names_of(models@[t as int]).take(j as int) =~= names_of(
                            models@[t as int],
                        ));
                        assert(string_views(tools_used@) =~= invoked_names(models@, t as int + 1));
                        assert(!stops_at(cancelled@, models@, t as int));
                    }
                    t = t + 1;
                },
            }
        }
        // turn budget exhausted
        proof {
            assert(stop_turn(cancelled@, models@, mt, t as int) == mt);
            assert forall|x: int| 0 <= x < t implies (#[trigger] models@[x]) is Ok by {
                assert(!stops_at(cancelled@, models@, x));
            }
            lemma_transcript_last_assistant(system_prompt@, h0, uc0, models@, outs, t as int);
        }
        let last = last_assistant_from(&messages);
        let response: String = match last {
            Some(lt) => lt,
            None => "Reached max processing limit. Please try again.".to_owned(),
        };
        let (deduped, counts) = dedup_with_counts(&tools_used);
        RunRecord {
            outcome: Ok(
                AgentResult {
                    response,
                    tools_used: deduped,
                    tools_count: counts,
                    provider: last_provider,
                    turns: max_turns,
                },
            ),
            transcript: messages,
            model_calls,
        }
    }
}

} // verus!
