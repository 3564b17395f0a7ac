use vstd::prelude::*;

use crate::accumulator::{
    choice_step, choices_step, delta_step, finish_events, function_call_event,
    function_call_events, text_events, tool_call_at, tool_call_items, tool_call_step, tool_calls_step,
    ChoiceModel, ToolCallModel,
};
use crate::chunk::{ChatChunk, ChatChunkChoice, ChatChunkDelta, ChatChunkToolCallDelta};
use crate::error::{chat_error_model, ApiErrorModel};
use crate::events::{
    assistant_message, checked, is_terminal, plain, EventModel, ItemModel, OutgoingModel,
};
use crate::order::sorted_keys;
use crate::text::{done_marker, trim};
use crate::stream::{
    choice_at, chunk_step, completed, error_message, initial_model, input_step, reports_error,
    start_events,
    usage_model, SseInput, StreamModel,
};

verus! {

// ---------------------------------------------------------------------------
// Runs of a stream
// ---------------------------------------------------------------------------

/// The effect of a sequence of inputs: every input is handled in turn until one
/// finishes the stream; later inputs are not looked at.
pub open spec fn run(st: StreamModel, inputs: Seq<SseInput>) -> (StreamModel, Seq<OutgoingModel>, bool)
    decreases inputs.len(),
{
    if inputs.len() == 0 {
        (st, seq![], false)
    } else {
        let (s1, e1, f1) = run(st, inputs.drop_last());
        if f1 {
            (s1, e1, true)
        } else {
            let (s2, e2, f2) = input_step(s1, inputs.last());
            (s2, e1 + e2, f2)
        }
    }
}

/// Everything a consumer receives from a stream whose headers named `server_model` and
/// whose transport delivered `inputs`.
pub open spec fn stream_events(server_model: Option<Seq<char>>, inputs: Seq<SseInput>) -> Seq<
    OutgoingModel,
> {
    start_events(server_model) + run(initial_model(), inputs).1
}

// ---------------------------------------------------------------------------
// Kinds of events
// ---------------------------------------------------------------------------

/// The text a message would carry after the events `s`, starting from `prior`: a text
/// delta appends its text, a reasoning delta empties it.
pub open spec fn pending_text(prior: Seq<char>, s: Seq<OutgoingModel>) -> Seq<char>
    decreases s.len(),
{
    if s.len() == 0 {
        prior
    } else {
        let p = pending_text(prior, s.drop_last());
        match s.last().item {
            Ok(EventModel::OutputTextDelta(t)) => p + t,
            Ok(EventModel::ReasoningContentDelta { .. }) => Seq::empty(),
            _ => p,
        }
    }
}

/// Every message in `s` is the assistant message of the text pending before it, and that
/// text is not empty.
pub open spec fn messages_carry_pending_text(prior: Seq<char>, s: Seq<OutgoingModel>) -> bool {
    forall|j: int|
        #![trigger s[j]]
        0 <= j < s.len() && is_message(s[j]) ==> {
            &&& s[j] == plain(
                EventModel::OutputItemDone(assistant_message(pending_text(prior, s.take(j)))),
            )
            &&& pending_text(prior, s.take(j)).len() > 0
        }
}

/// Every completion in `s` ends the turn.
pub open spec fn completions_end_turn(s: Seq<OutgoingModel>) -> bool {
    forall|j: int|
        #![trigger s[j]]
        0 <= j < s.len() ==> (s[j].item matches Ok(EventModel::Completed { end_turn, .. })
            ==> end_turn == Some(true))
}

/// Some event of `s` is an error.
pub open spec fn has_error(s: Seq<OutgoingModel>) -> bool {
    exists|j: int| #![trigger s[j]] 0 <= j < s.len() && s[j].item is Err
}

/// An input that makes the stream fail: data reporting an error (and not the end marker),
/// a failure of the transport, or the idle timeout.
pub open spec fn is_error_input(input: SseInput) -> bool {
    match input {
        SseInput::Event { data, error_payload, .. } => trim(data@) != done_marker()
            && reports_error(error_payload),
        SseInput::Closed => false,
        SseInput::Failed(_) => true,
        SseInput::IdleTimeout => true,
    }
}

/// The error event that an error input leads to.
pub open spec fn error_event_of(input: SseInput) -> OutgoingModel {
    OutgoingModel {
        item: Err(
            match input {
                SseInput::Event { error_payload, .. } => {
                    let detail = error_payload->0.error->0;
                    chat_error_model(
                        detail.code.deep_view(),
                        error_message(detail.message.deep_view()),
                    )
                },
                SseInput::Failed(m) => ApiErrorModel::Stream(m@),
                _ => ApiErrorModel::Stream("idle timeout waiting for SSE"@),
            },
        ),
        stop_if_undelivered: false,
    }
}

/// Some input of `inputs`, reached while the stream was still running, makes it fail.
pub open spec fn fails_at(inputs: Seq<SseInput>, k: int) -> bool {
    &&& 0 <= k < inputs.len()
    &&& !run(initial_model(), inputs.take(k)).2
    &&& is_error_input(inputs[k])
}

/// A finished message item.
pub open spec fn is_message(o: OutgoingModel) -> bool {
    o.item matches Ok(EventModel::OutputItemDone(ItemModel::Message { .. }))
}

/// A server-model announcement.
pub open spec fn is_model_announcement(o: OutgoingModel) -> bool {
    o.item matches Ok(EventModel::ServerModel(_))
}

/// No event of `s` ends the stream.
pub open spec fn no_terminal(s: Seq<OutgoingModel>) -> bool {
    forall|j: int| #![trigger s[j]] 0 <= j < s.len() ==> !is_terminal(s[j])
}

/// The only event of `s` that ends the stream, if any, is its last, and it is there
/// exactly when `finished`.
pub open spec fn ends_once(s: Seq<OutgoingModel>, finished: bool) -> bool {
    &&& forall|j: int| #![trigger s[j]] 0 <= j < s.len() - 1 ==> !is_terminal(s[j])
    &&& finished <==> (s.len() > 0 && is_terminal(s.last()))
}

/// Events that only a choice produces.
pub open spec fn is_choice_event(o: OutgoingModel) -> bool {
    match o.item {
        Ok(EventModel::OutputTextDelta(_)) => true,
        Ok(EventModel::ReasoningContentDelta { .. }) => true,
        Ok(EventModel::ToolCallInputDelta { .. }) => true,
        Ok(EventModel::OutputItemDone(_)) => true,
        _ => false,
    }
}

/// Events about tool calls.
pub open spec fn is_tool_event(o: OutgoingModel) -> bool {
    match o.item {
        Ok(EventModel::ToolCallInputDelta { .. }) => true,
        Ok(EventModel::OutputItemDone(ItemModel::FunctionCall { .. })) => true,
        _ => false,
    }
}

pub open spec fn all_choice_events(s: Seq<OutgoingModel>) -> bool {
    forall|j: int| #![trigger s[j]] 0 <= j < s.len() ==> is_choice_event(s[j])
}

pub open spec fn all_tool_events(s: Seq<OutgoingModel>) -> bool {
    forall|j: int| #![trigger s[j]] 0 <= j < s.len() ==> is_tool_event(s[j])
}

// ---------------------------------------------------------------------------
// Lemmas on sequences of events
// ---------------------------------------------------------------------------

proof fn lemma_pending_append(p: Seq<char>, a: Seq<OutgoingModel>, b: Seq<OutgoingModel>)
    ensures
        pending_text(p, a + b) == pending_text(pending_text(p, a), b),
    decreases b.len(),
{
    if b.len() == 0 {
        assert(a + b =~= a);
    } else {
        lemma_pending_append(p, a, b.drop_last());
        assert((a + b).drop_last() =~= a + b.drop_last());
        assert((a + b).last() == b.last());
    }
}

proof fn lemma_carry_append(p: Seq<char>, a: Seq<OutgoingModel>, b: Seq<OutgoingModel>)
    requires
        messages_carry_pending_text(p, a),
        messages_carry_pending_text(pending_text(p, a), b),
    ensures
        messages_carry_pending_text(p, a + b),
{
    let s = a + b;
    assert forall|j: int| 0 <= j < s.len() && is_message(s[j]) implies s[j] == plain(
        EventModel::OutputItemDone(assistant_message(pending_text(p, s.take(j)))),
    ) && pending_text(p, s.take(j)).len() > 0 by {
        if j < a.len() {
            assert(s[j] == a[j]);
            assert(s.take(j) =~= a.take(j));
        } else {
            let k = j - a.len();
            assert(s[j] == b[k]);
            assert(s.take(j) =~= a + b.take(k));
            lemma_pending_append(p, a, b.take(k));
        }
    }
}

proof fn lemma_end_turn_append(a: Seq<OutgoingModel>, b: Seq<OutgoingModel>)
    requires
        completions_end_turn(a),
        completions_end_turn(b),
    ensures
        completions_end_turn(a + b),
{
    assert forall|j: int| #![trigger (a + b)[j]] 0 <= j < (a + b).len() implies ((a + b)[j].item matches Ok(
        EventModel::Completed { end_turn, .. },
    ) ==> end_turn == Some(true)) by {
        if j < a.len() {
            assert((a + b)[j] == a[j]);
        } else {
            assert((a + b)[j] == b[j - a.len()]);
        }
    }
}

proof fn lemma_tool_events_neutral(p: Seq<char>, s: Seq<OutgoingModel>)
    requires
        all_tool_events(s),
    ensures
        pending_text(p, s) == p,
        messages_carry_pending_text(p, s),
        all_choice_events(s),
    decreases s.len(),
{
    if s.len() > 0 {
        let t = s.drop_last();
        assert forall|j: int| 0 <= j < t.len() implies is_tool_event(t[j]) by {
            assert(t[j] == s[j]);
        }
        lemma_tool_events_neutral(p, t);
        assert(is_tool_event(s[s.len() - 1]));
        assert forall|j: int| 0 <= j < s.len() && is_message(s[j]) implies s[j] == plain(
            EventModel::OutputItemDone(assistant_message(pending_text(p, s.take(j)))),
        ) && pending_text(p, s.take(j)).len() > 0 by {
            assert(is_tool_event(s[j]));
        }
    }
}

proof fn lemma_all_tool_append(a: Seq<OutgoingModel>, b: Seq<OutgoingModel>)
    requires
        all_tool_events(a),
        all_tool_events(b),
    ensures
        all_tool_events(a + b),
{
    assert forall|j: int| 0 <= j < (a + b).len() implies is_tool_event((a + b)[j]) by {
        if j < a.len() {
            assert((a + b)[j] == a[j]);
        } else {
            assert((a + b)[j] == b[j - a.len()]);
        }
    }
}

proof fn lemma_all_choice_append(a: Seq<OutgoingModel>, b: Seq<OutgoingModel>)
    requires
        all_choice_events(a),
        all_choice_events(b),
    ensures
        all_choice_events(a + b),
{
    assert forall|j: int| 0 <= j < (a + b).len() implies is_choice_event((a + b)[j]) by {
        if j < a.len() {
            assert((a + b)[j] == a[j]);
        } else {
            assert((a + b)[j] == b[j - a.len()]);
        }
    }
}

proof fn lemma_choice_events_not_terminal(s: Seq<OutgoingModel>)
    requires
        all_choice_events(s),
    ensures
        no_terminal(s),
        forall|j: int| 0 <= j < s.len() ==> !is_model_announcement(#[trigger] s[j]),
{
    assert forall|j: int| 0 <= j < s.len() implies !is_terminal(s[j]) && !is_model_announcement(
        s[j],
    ) by {
        assert(is_choice_event(s[j]));
    }
}

// ---------------------------------------------------------------------------
// What choices emit
// ---------------------------------------------------------------------------

proof fn lemma_tool_call_step_events(m: Map<i32, ToolCallModel>, tc: ChatChunkToolCallDelta)
    ensures
        all_tool_events(tool_call_step(m, tc).1),
{
}

proof fn lemma_tool_calls_step_events(m: Map<i32, ToolCallModel>, tcs: Seq<ChatChunkToolCallDelta>)
    ensures
        all_tool_events(tool_calls_step(m, tcs).1),
    decreases tcs.len(),
{
    if tcs.len() > 0 {
        lemma_tool_calls_step_events(m, tcs.drop_last());
        let (m1, e1) = tool_calls_step(m, tcs.drop_last());
        lemma_tool_call_step_events(m1, tcs.last());
        lemma_all_tool_append(e1, tool_call_step(m1, tcs.last()).1);
    }
}

proof fn lemma_function_call_events(m: Map<i32, ToolCallModel>, keys: Seq<i32>)
    ensures
        all_tool_events(function_call_events(m, keys)),
    decreases keys.len(),
{
    if keys.len() > 0 {
        lemma_function_call_events(m, keys.drop_last());
        lemma_all_tool_append(
            function_call_events(m, keys.drop_last()),
            function_call_event(m[keys.last()]),
        );
    }
}

proof fn lemma_choice_events_end_turn(s: Seq<OutgoingModel>)
    requires
        all_choice_events(s),
    ensures
        completions_end_turn(s),
        forall|j: int| 0 <= j < s.len() ==> (#[trigger] s[j]).item is Ok,
{
    assert forall|j: int| 0 <= j < s.len() implies (s[j].item matches Ok(
        EventModel::Completed { end_turn, .. },
    ) ==> end_turn == Some(true)) && s[j].item is Ok by {
        assert(is_choice_event(s[j]));
    }
}

proof fn lemma_text_events(c: Seq<char>)
    ensures
        messages_carry_pending_text(c, text_events(c)),
        pending_text(c, text_events(c)) == c,
        all_choice_events(text_events(c)),
{
    let s = text_events(c);
    let empty: Seq<OutgoingModel> = Seq::empty();
    if c.len() > 0 {
        assert(s.take(0) =~= empty);
        assert(s.drop_last() =~= empty);
        assert(pending_text(c, s.drop_last()) == c);
        assert(s.last() == s[0]);
        assert(is_message(s.last()));
        assert(pending_text(c, s) == c);
    } else {
        assert(s =~= empty);
    }
}

proof fn lemma_finish_events(acc: ChoiceModel, reason: Option<Seq<char>>)
    ensures
        messages_carry_pending_text(acc.content, finish_events(acc, reason)),
        pending_text(acc.content, finish_events(acc, reason)) == acc.content,
        all_choice_events(finish_events(acc, reason)),
{
    lemma_text_events(acc.content);
    lemma_function_call_events(acc.tool_calls, sorted_keys(acc.tool_calls.dom()));
    lemma_tool_events_neutral(acc.content, tool_call_items(acc.tool_calls));
}

proof fn lemma_delta_step(acc: ChoiceModel, d: ChatChunkDelta)
    ensures
        ({
            let (a, e) = delta_step(acc, d);
            &&& a.content == pending_text(acc.content, e)
            &&& messages_carry_pending_text(acc.content, e)
            &&& all_choice_events(e)
        }),
{
    let p = acc.content;
    lemma_text_events(p);
    let empty: Seq<OutgoingModel> = seq![];
    let (kept, r_events) = match d.reasoning_content {
        Some(r) => (
            Seq::<char>::empty(),
            text_events(p) + seq![
                checked(EventModel::ReasoningContentDelta { delta: r@, content_index: 0 }),
            ],
        ),
        None => (p, seq![]),
    };
    assert(pending_text(p, r_events) == kept && messages_carry_pending_text(p, r_events)
        && all_choice_events(r_events)) by {
        if let Some(r) = d.reasoning_content {
            let last = seq![
                checked(EventModel::ReasoningContentDelta { delta: r@, content_index: 0 }),
            ];
            assert(last.drop_last() =~= empty);
            assert(messages_carry_pending_text(p, last));
            lemma_carry_append(p, text_events(p), last);
            lemma_pending_append(p, text_events(p), last);
            lemma_all_choice_append(text_events(p), last);
        }
    }
    let (tool_calls, tool_ev) = match d.tool_calls {
        Some(tcs) => tool_calls_step(acc.tool_calls, tcs@),
        None => (acc.tool_calls, seq![]),
    };
    assert(all_tool_events(tool_ev)) by {
        if let Some(tcs) = d.tool_calls {
            lemma_tool_calls_step_events(acc.tool_calls, tcs@);
        }
    }
    lemma_tool_events_neutral(kept, tool_ev);
    let text_ev = match d.content {
        Some(t) => seq![checked(EventModel::OutputTextDelta(t@))],
        None => seq![],
    };
    assert(messages_carry_pending_text(kept, text_ev) && all_choice_events(text_ev));
    assert(pending_text(kept, text_ev) == match d.content {
        Some(t) => kept + t@,
        None => kept,
    }) by {
        if d.content is Some {
            assert(text_ev.drop_last() =~= empty);
        }
    }
    lemma_carry_append(p, r_events, tool_ev);
    lemma_pending_append(p, r_events, tool_ev);
    lemma_all_choice_append(r_events, tool_ev);
    let first = r_events + tool_ev;
    lemma_carry_append(p, first, text_ev);
    lemma_pending_append(p, first, text_ev);
    lemma_all_choice_append(first, text_ev);
    let (a, e) = delta_step(acc, d);
    assert(e == first + text_ev);
}

proof fn lemma_choice_step(acc: ChoiceModel, choice: ChatChunkChoice)
    ensures
        ({
            let (a, e) = choice_step(acc, choice);
            &&& a.content == pending_text(acc.content, e)
            &&& messages_carry_pending_text(acc.content, e)
            &&& all_choice_events(e)
        }),
{
    let p = acc.content;
    let (a1, e1) = match choice.delta {
        Some(d) => delta_step(acc, d),
        None => (acc, seq![]),
    };
    if let Some(d) = choice.delta {
        lemma_delta_step(acc, d);
    }
    let e2 = finish_events(a1, choice.finish_reason.deep_view());
    lemma_finish_events(a1, choice.finish_reason.deep_view());
    lemma_carry_append(p, e1, e2);
    lemma_pending_append(p, e1, e2);
    lemma_all_choice_append(e1, e2);
}

#[verifier::spinoff_prover]
#[verifier::rlimit(40)]
proof fn lemma_choices_step(acc: ChoiceModel, choices: Seq<ChatChunkChoice>)
    ensures
        ({
            let (a, e) = choices_step(acc, choices);
            &&& a.content == pending_text(acc.content, e)
            &&& messages_carry_pending_text(acc.content, e)
            &&& all_choice_events(e)
        }),
    decreases choices.len(),
{
    let p = acc.content;
    if choices.len() > 0 {
        lemma_choices_step(acc, choices.drop_last());
        let (a1, e1) = choices_step(acc, choices.drop_last());
        lemma_choice_step(a1, choices.last());
        let (a2, e2) = choice_step(a1, choices.last());
        lemma_carry_append(p, e1, e2);
        lemma_pending_append(p, e1, e2);
        lemma_all_choice_append(e1, e2);
    }
}

// ---------------------------------------------------------------------------
// What a step emits
// ---------------------------------------------------------------------------

/// The text of choice 0 is `pending`, and no other choice exists.
pub open spec fn holds_pending_text(st: StreamModel, pending: Seq<char>) -> bool {
    &&& forall|k: i32| st.choices.contains_key(k) ==> k == 0
    &&& choice_at(st.choices, 0).content == pending
}

/// What every step guarantees of its events.
pub open spec fn step_facts(
    st: StreamModel,
    input_events: Seq<OutgoingModel>,
    finished: bool,
    st2: StreamModel,
    pending: Seq<char>,
) -> bool {
    &&& holds_pending_text(st2, pending_text(pending, input_events))
    &&& messages_carry_pending_text(pending, input_events)
    &&& ends_once(input_events, finished)
    &&& completions_end_turn(input_events)
    &&& st.response_id is Some ==> st2.response_id == st.response_id
}

#[verifier::rlimit(40)]
proof fn lemma_chunk_step(st: StreamModel, c: ChatChunk, pending: Seq<char>)
    requires
        holds_pending_text(st, pending),
    ensures
        ({
            let (st2, e, fin) = chunk_step(st, c);
            &&& step_facts(st, e, fin, st2, pending)
            &&& !has_error(e)
        }),
{
    let empty: Seq<OutgoingModel> = seq![];
    let model_events = match c.model {
        Some(m) => if st.last_server_model_sent != Some(m@) {
            seq![checked(EventModel::ServerModel(m@))]
        } else {
            seq![]
        },
        None => seq![],
    };
    assert(pending_text(pending, model_events) == pending) by {
        if model_events.len() > 0 {
            assert(model_events.drop_last() =~= empty);
            assert(pending_text(pending, model_events.drop_last()) == pending);
            assert(model_events.last() == model_events[0]);
        } else {
            assert(model_events =~= empty);
        }
    }
    assert(messages_carry_pending_text(pending, model_events));
    assert(no_terminal(model_events));
    assert(completions_end_turn(model_events));
    let choice_events = match c.choices {
        Some(cs) => if cs@.len() > 0 {
            choices_step(choice_at(st.choices, 0), cs@).1
        } else {
            seq![]
        },
        None => seq![],
    };
    if let Some(cs) = c.choices {
        if cs@.len() > 0 {
            lemma_choices_step(choice_at(st.choices, 0), cs@);
        }
    }
    lemma_choice_events_not_terminal(choice_events);
    lemma_choice_events_end_turn(choice_events);
    lemma_carry_append(pending, model_events, choice_events);
    lemma_pending_append(pending, model_events, choice_events);
    lemma_end_turn_append(model_events, choice_events);
    let body = model_events + choice_events;
    assert(no_terminal(body)) by {
        assert forall|j: int| 0 <= j < body.len() implies !is_terminal(body[j]) by {
            if j < model_events.len() {
                assert(body[j] == model_events[j]);
            } else {
                assert(body[j] == choice_events[j - model_events.len()]);
            }
        }
    }
    assert forall|j: int| 0 <= j < body.len() implies body[j].item is Ok by {
        if j >= model_events.len() {
            assert(body[j] == choice_events[j - model_events.len()]);
        }
    }
    let (st2, e, fin) = chunk_step(st, c);
    if let Some(u) = c.usage {
        let done = seq![checked(completed(st2.response_id, Some(usage_model(u))))];
        assert(e == body + done);
        assert(done.drop_last() =~= empty);
        assert(messages_carry_pending_text(pending_text(pending, body), done));
        assert(completions_end_turn(done));
        lemma_carry_append(pending, body, done);
        lemma_pending_append(pending, body, done);
        lemma_end_turn_append(body, done);
        assert(e.last() == done[0]);
        assert forall|j: int| 0 <= j < e.len() - 1 implies !is_terminal(e[j]) by {
            assert(e[j] == body[j]);
        }
        assert forall|j: int| 0 <= j < e.len() implies e[j].item is Ok by {
            if j < body.len() {
                assert(e[j] == body[j]);
            }
        }
    } else {
        assert(e == body);
        if e.len() > 0 {
            assert(!is_terminal(e[e.len() - 1]));
        }
    }
}

proof fn lemma_single_event(o: OutgoingModel, pending: Seq<char>)
    requires
        !is_message(o),
        o.item is Err || (o.item matches Ok(EventModel::Completed { end_turn, .. }) && end_turn
            == Some(true)),
    ensures
        pending_text(pending, seq![o]) == pending,
        messages_carry_pending_text(pending, seq![o]),
        ends_once(seq![o], true),
        completions_end_turn(seq![o]),
        has_error(seq![o]) <==> o.item is Err,
{
    let empty: Seq<OutgoingModel> = seq![];
    assert(seq![o].drop_last() =~= empty);
    assert(seq![o][0] == o);
    assert(seq![o].last() == o);
    assert(pending_text(pending, empty) == pending);
}

proof fn lemma_input_step(st: StreamModel, input: SseInput, pending: Seq<char>)
    requires
        holds_pending_text(st, pending),
    ensures
        ({
            let (st2, e, fin) = input_step(st, input);
            &&& step_facts(st, e, fin, st2, pending)
            &&& has_error(e) <==> is_error_input(input)
            &&& is_error_input(input) ==> e == seq![error_event_of(input)]
        }),
{
    let (st2, e, fin) = input_step(st, input);
    match input {
        SseInput::Event { data, error_payload, chunk } => {
            if trim(data@) == done_marker() {
                lemma_single_event(e[0], pending);
                assert(e =~= seq![e[0]]);
            } else if reports_error(error_payload) {
                lemma_single_event(e[0], pending);
                assert(e =~= seq![e[0]]);
            } else {
                match chunk {
                    Some(c) => lemma_chunk_step(st, c, pending),
                    None => {},
                }
            }
        },
        _ => {
            lemma_single_event(e[0], pending);
            assert(e =~= seq![e[0]]);
        },
    }
}

/// What a run guarantees of everything it emitted after `prior`.
pub open spec fn run_facts(inputs: Seq<SseInput>, all: Seq<OutgoingModel>, st: StreamModel, fin: bool) -> bool {
    &&& holds_pending_text(st, pending_text(Seq::empty(), all))
    &&& messages_carry_pending_text(Seq::empty(), all)
    &&& ends_once(all, fin)
    &&& completions_end_turn(all)
    &&& has_error(all) <==> exists|k: int| fails_at(inputs, k)
    &&& forall|k: int| fails_at(inputs, k) ==> all.last() == error_event_of(inputs[k])
}

proof fn lemma_terminal_free_no_error(s: Seq<OutgoingModel>)
    requires
        ends_once(s, false),
    ensures
        !has_error(s),
{
    if has_error(s) {
        let j = choose|j: int| 0 <= j < s.len() && s[j].item is Err;
        assert(is_terminal(s[j]));
        if j < s.len() - 1 {
        } else {
            assert(s.last() == s[j]);
        }
    }
}

#[verifier::rlimit(60)]
proof fn lemma_run(inputs: Seq<SseInput>, prior: Seq<OutgoingModel>)
    requires
        no_terminal(prior),
        messages_carry_pending_text(Seq::empty(), prior),
        pending_text(Seq::empty(), prior) == Seq::<char>::empty(),
        completions_end_turn(prior),
        forall|j: int| 0 <= j < prior.len() ==> (#[trigger] prior[j]).item is Ok,
    ensures
        ({
            let (st, e, fin) = run(initial_model(), inputs);
            run_facts(inputs, prior + e, st, fin)
        }),
    decreases inputs.len(),
{
    let (st, e, fin) = run(initial_model(), inputs);
    if inputs.len() == 0 {
        assert(prior + e =~= prior);
        assert(holds_pending_text(initial_model(), Seq::empty()));
        if prior.len() > 0 {
            assert(!is_terminal(prior[prior.len() - 1]));
        }
        assert(!has_error(prior));
    } else {
        let n = inputs.len() - 1;
        let init = inputs.drop_last();
        lemma_run(init, prior);
        let (s1, e1, f1) = run(initial_model(), init);
        assert(inputs.take(n) =~= init);
        assert forall|k: int| 0 <= k < n implies #[trigger] inputs.take(k) == init.take(k) && inputs[k]
            == init[k] by {
            assert(inputs.take(k) =~= init.take(k));
        }
        if f1 {
            assert(prior + e == prior + e1);
            assert((exists|k: int| fails_at(inputs, k)) <==> (exists|k: int| fails_at(init, k))) by {
                if exists|k: int| fails_at(inputs, k) {
                    let k = choose|k: int| fails_at(inputs, k);
                    assert(k < n);
                    assert(fails_at(init, k));
                }
                if exists|k: int| fails_at(init, k) {
                    let k = choose|k: int| fails_at(init, k);
                    assert(fails_at(inputs, k));
                }
            }
            assert forall|k: int| fails_at(inputs, k) implies (prior + e).last() == error_event_of(
                inputs[k],
            ) by {
                assert(k < n);
                assert(fails_at(init, k));
            }
        } else {
            let (s2, e2, f2) = input_step(s1, inputs.last());
            let pending = pending_text(Seq::empty(), prior + e1);
            lemma_input_step(s1, inputs.last(), pending);
            lemma_carry_append(Seq::empty(), prior + e1, e2);
            lemma_pending_append(Seq::empty(), prior + e1, e2);
            lemma_end_turn_append(prior + e1, e2);
            assert(prior + e =~= (prior + e1) + e2);
            let all = (prior + e1) + e2;
            assert forall|j: int| 0 <= j < all.len() - 1 implies !is_terminal(all[j]) by {
                if j < (prior + e1).len() {
                    assert(all[j] == (prior + e1)[j]);
                } else {
                    assert(all[j] == e2[j - (prior + e1).len()]);
                }
            }
            if e2.len() == 0 {
                assert(all =~= prior + e1);
                if (prior + e1).len() > 0 {
                    assert(!is_terminal((prior + e1)[(prior + e1).len() - 1]));
                }
            } else {
                assert(all.last() == e2.last());
            }
            lemma_terminal_free_no_error(prior + e1);
            assert(!exists|k: int| fails_at(init, k));
            assert(has_error(all) <==> has_error(e2)) by {
                if has_error(all) {
                    let j = choose|j: int| 0 <= j < all.len() && all[j].item is Err;
                    if j < (prior + e1).len() {
                        assert(all[j] == (prior + e1)[j]);
                    } else {
                        assert(all[j] == e2[j - (prior + e1).len()]);
                    }
                }
                if has_error(e2) {
                    let j = choose|j: int| 0 <= j < e2.len() && e2[j].item is Err;
                    assert(all[j + (prior + e1).len()] == e2[j]);
                }
            }
            assert((exists|k: int| fails_at(inputs, k)) <==> is_error_input(inputs.last())) by {
                if exists|k: int| fails_at(inputs, k) {
                    let k = choose|k: int| fails_at(inputs, k);
                    if k < n {
                        assert(fails_at(init, k));
                    }
                }
                if is_error_input(inputs.last()) {
                    assert(fails_at(inputs, n));
                }
            }
            assert forall|k: int| fails_at(inputs, k) implies all.last() == error_event_of(
                inputs[k],
            ) by {
                if k < n {
                    assert(fails_at(init, k));
                }
                assert(e2 == seq![error_event_of(inputs.last())]);
            }
        }
    }
}

// ---------------------------------------------------------------------------
// Laws
// ---------------------------------------------------------------------------

proof fn lemma_start_events(server_model: Option<Seq<char>>)
    ensures
        no_terminal(start_events(server_model)),
        messages_carry_pending_text(Seq::empty(), start_events(server_model)),
        pending_text(Seq::empty(), start_events(server_model)) == Seq::<char>::empty(),
        completions_end_turn(start_events(server_model)),
        forall|j: int|
            0 <= j < start_events(server_model).len() ==> (#[trigger] start_events(
                server_model,
            )[j]).item is Ok,
{
    let s = start_events(server_model);
    let empty: Seq<OutgoingModel> = seq![];
    let none: Seq<char> = Seq::empty();
    let s1 = s.drop_last();
    if s.len() == 2 {
        assert(s1.drop_last() =~= empty);
        assert(pending_text(none, s1.drop_last()) == none);
        assert(s1.last() == s[0]);
    } else {
        assert(s1 =~= empty);
    }
    assert(pending_text(none, s1) == none);
    assert(s.last() == s[s.len() - 1]);
    assert(pending_text(none, s) == none);
}

proof fn lemma_stream(server_model: Option<Seq<char>>, inputs: Seq<SseInput>)
    ensures
        ({
            let (st, e, fin) = run(initial_model(), inputs);
            run_facts(inputs, stream_events(server_model, inputs), st, fin)
        }),
{
    lemma_start_events(server_model);
    lemma_run(inputs, start_events(server_model));
}

/// Every assistant message a stream emits holds exactly the text deltas emitted since
/// the last reasoning delta (from the start of the stream when there was none), in order:
/// text flushed before reasoning is not sent again.
pub proof fn law_messages_carry_text_since_reasoning(
    server_model: Option<Seq<char>>,
    inputs: Seq<SseInput>,
)
    ensures
        messages_carry_pending_text(Seq::empty(), stream_events(server_model, inputs)),
{
    lemma_stream(server_model, inputs);
}

/// A stream emits at most one completion or error; it is the last event, and it is
/// there exactly when the stream has finished.
pub proof fn law_one_terminal_event_last(server_model: Option<Seq<char>>, inputs: Seq<SseInput>)
    ensures
        ends_once(stream_events(server_model, inputs), run(initial_model(), inputs).2),
{
    lemma_stream(server_model, inputs);
}

/// Every completion a stream emits ends the turn.
pub proof fn law_completions_end_turn(server_model: Option<Seq<char>>, inputs: Seq<SseInput>)
    ensures
        completions_end_turn(stream_events(server_model, inputs)),
{
    lemma_stream(server_model, inputs);
}

/// A stream whose transport reports its end, a failure or the idle timeout emits exactly
/// one completion or error, as its last event.
pub proof fn law_ended_stream_ends_once(server_model: Option<Seq<char>>, inputs: Seq<SseInput>)
    requires
        inputs.len() > 0,
        !(inputs.last() is Event),
    ensures
        run(initial_model(), inputs).2,
        ends_once(stream_events(server_model, inputs), true),
{
    lemma_stream(server_model, inputs);
}

/// A stream emits an error exactly when, while it runs, the data of an event reports an
/// error, the transport fails, or the idle timeout passes; the error is then the one that
/// input stands for, and it is the last event.
pub proof fn law_errors_come_from_failing_inputs(
    server_model: Option<Seq<char>>,
    inputs: Seq<SseInput>,
)
    ensures
        has_error(stream_events(server_model, inputs)) <==> exists|k: int| fails_at(inputs, k),
        forall|k: int|
            fails_at(inputs, k) ==> stream_events(server_model, inputs).last() == error_event_of(
                inputs[k],
            ),
{
    lemma_stream(server_model, inputs);
}

/// Once a stream knows its response id, no later input changes it.
pub proof fn law_response_id_is_kept(st: StreamModel, input: SseInput)
    requires
        st.response_id is Some,
    ensures
        input_step(st, input).0.response_id == st.response_id,
{
}

/// A chunk that reports the same model as the chunk before it does not announce
/// the model again.
pub proof fn law_model_announced_once(st: StreamModel, first: ChatChunk, second: ChatChunk)
    requires
        first.model is Some,
        second.model.deep_view() == first.model.deep_view(),
    ensures
        forall|j: int|
            0 <= j < chunk_step(chunk_step(st, first).0, second).1.len() ==> !is_model_announcement(
                #[trigger] chunk_step(chunk_step(st, first).0, second).1[j],
            ),
{
    let st1 = chunk_step(st, first).0;
    if let Some(cs) = second.choices {
        if cs@.len() > 0 {
            lemma_choices_step(choice_at(st1.choices, 0), cs@);
            lemma_choice_events_not_terminal(choices_step(choice_at(st1.choices, 0), cs@).1);
        }
    }
    let e = chunk_step(st1, second).1;
    let choice_events = match second.choices {
        Some(cs) => if cs@.len() > 0 {
            choices_step(choice_at(st1.choices, 0), cs@).1
        } else {
            seq![]
        },
        None => seq![],
    };
    assert forall|j: int| 0 <= j < e.len() implies !is_model_announcement(e[j]) by {
        if j < choice_events.len() {
            assert(e[j] == choice_events[j]);
        }
    }
}

/// The arguments fragments that `tcs` carries for the tool call under `index`, in order.
pub open spec fn argument_fragments(tcs: Seq<ChatChunkToolCallDelta>, index: i32) -> Seq<char>
    decreases tcs.len(),
{
    if tcs.len() == 0 {
        Seq::empty()
    } else {
        let tc = tcs.last();
        argument_fragments(tcs.drop_last(), index) + if tc.index == index {
            match tc.function {
                Some(f) => match f.arguments {
                    Some(a) => a@,
                    None => Seq::empty(),
                },
                None => Seq::empty(),
            }
        } else {
            Seq::empty()
        }
    }
}

/// The arguments of a tool call are its earlier arguments followed by every arguments
/// fragment received under its index, in order; fragments of other indices do not touch it.
pub proof fn law_tool_arguments_concatenate(
    m: Map<i32, ToolCallModel>,
    tcs: Seq<ChatChunkToolCallDelta>,
    index: i32,
)
    ensures
        tool_call_at(tool_calls_step(m, tcs).0, index).arguments
            == tool_call_at(m, index).arguments + argument_fragments(
            tcs,
            index,
        ),
    decreases tcs.len(),
{
    if tcs.len() == 0 {
        assert(tool_call_at(m, index).arguments + Seq::<char>::empty()
            =~= tool_call_at(m, index).arguments);
    } else {
        law_tool_arguments_concatenate(m, tcs.drop_last(), index);
        let m1 = tool_calls_step(m, tcs.drop_last()).0;
        let tc = tcs.last();
        let base = tool_call_at(m, index).arguments;
        let frag = argument_fragments(tcs.drop_last(), index);
        if tc.index == index {
            match tc.function {
                Some(f) => match f.arguments {
                    Some(a) => {
                        assert(base + frag + a@ =~= base + (frag + a@));
                    },
                    None => {
                        assert(frag + Seq::<char>::empty() =~= frag);
                    },
                },
                None => {
                    assert(frag + Seq::<char>::empty() =~= frag);
                },
            }
        } else {
            assert(frag + Seq::<char>::empty() =~= frag);
        }
    }
}

/// Every assistant message a stream emits carries some text: a reasoning delta with no
/// text pending, or a finish with no text received, emits no message.
pub proof fn law_messages_are_never_empty(server_model: Option<Seq<char>>, inputs: Seq<SseInput>)
    ensures
        forall|j: int|
            0 <= j < stream_events(server_model, inputs).len() && is_message(
                #[trigger] stream_events(server_model, inputs)[j],
            ) ==> exists|t: Seq<char>|
                t.len() > 0 && stream_events(server_model, inputs)[j] == plain(
                    EventModel::OutputItemDone(assistant_message(t)),
                ),
{
    lemma_stream(server_model, inputs);
    let e = stream_events(server_model, inputs);
    assert forall|j: int| 0 <= j < e.len() && is_message(#[trigger] e[j]) implies exists|t: Seq<char>|
        t.len() > 0 && e[j] == plain(EventModel::OutputItemDone(assistant_message(t))) by {
        let t = pending_text(Seq::empty(), e.take(j));
        assert(t.len() > 0 && e[j] == plain(EventModel::OutputItemDone(assistant_message(t))));
    }
}

/// A tool call that can be reported: it has an id and a name.
pub open spec fn is_complete_call(t: ToolCallModel) -> bool {
    t.id.len() > 0 && t.name.len() > 0
}

/// The indices of the reportable tool calls, in increasing order.
pub open spec fn complete_call_keys(m: Map<i32, ToolCallModel>) -> Seq<i32> {
    sorted_keys(m.dom()).filter(|k: i32| is_complete_call(m[k]))
}

/// The finished function-call item of a tool call.
pub open spec fn function_call_item(t: ToolCallModel) -> OutgoingModel {
    plain(
        EventModel::OutputItemDone(
            ItemModel::FunctionCall {
                id: None,
                name: t.name,
                namespace: None,
                arguments: t.arguments,
                call_id: t.id,
            },
        ),
    )
}

proof fn lemma_function_call_events_filter(m: Map<i32, ToolCallModel>, keys: Seq<i32>)
    ensures
        function_call_events(m, keys) == keys.filter(|k: i32| is_complete_call(m[k])).map_values(
            |k: i32| function_call_item(m[k]),
        ),
    decreases keys.len(),
{
    reveal_with_fuel(Seq::filter, 1);
    if keys.len() == 0 {
        assert(keys.filter(|k: i32| is_complete_call(m[k])) =~= keys);
        assert(keys.filter(|k: i32| is_complete_call(m[k])).map_values(
            |k: i32| function_call_item(m[k]),
        ) =~= Seq::<OutgoingModel>::empty());
    } else {
        lemma_function_call_events_filter(m, keys.drop_last());
        let f = keys.drop_last().filter(|k: i32| is_complete_call(m[k]));
        let k = keys.last();
        if is_complete_call(m[k]) {
            assert(f.push(k).map_values(|k: i32| function_call_item(m[k])) =~= f.map_values(
                |k: i32| function_call_item(m[k]),
            ) + seq![function_call_item(m[k])]);
        } else {
            assert(f.map_values(|k: i32| function_call_item(m[k])) + Seq::<OutgoingModel>::empty()
                =~= f.map_values(|k: i32| function_call_item(m[k])));
        }
    }
}

/// A `tool_calls` finish emits exactly one function-call item for each tool call that has
/// an id and a name, in increasing index order, and nothing else.
pub proof fn law_tool_calls_finish_emits_complete_calls(acc: ChoiceModel)
    ensures
        ({
            let e = finish_events(acc, Some("tool_calls"@));
            let ks = complete_call_keys(acc.tool_calls);
            &&& e.len() == ks.len()
            &&& forall|i: int|
                0 <= i < ks.len() ==> #[trigger] e[i] == function_call_item(acc.tool_calls[ks[i]])
        }),
{
    reveal_strlit("tool_calls");
    reveal_strlit("stop");
    reveal_strlit("length");
    reveal_strlit("content_filter");
    assert("tool_calls"@.len() == 10 && "stop"@.len() == 4 && "length"@.len() == 6
        && "content_filter"@.len() == 14);
    lemma_function_call_events_filter(acc.tool_calls, sorted_keys(acc.tool_calls.dom()));
}

/// A chunk naming a model other than the last one announced announces it before any of
/// its other events, and records it as announced.
pub proof fn law_new_model_is_announced_first(st: StreamModel, input: SseInput)
    requires
        input is Event,
        trim(input->data@) != done_marker(),
        !reports_error(input->error_payload),
        input->chunk is Some,
        input->chunk->0.model is Some,
        st.last_server_model_sent != Some(input->chunk->0.model->0@),
    ensures
        ({
            let (st2, e, fin) = input_step(st, input);
            let m = input->chunk->0.model->0@;
            &&& e.len() > 0
            &&& e[0] == (OutgoingModel {
                item: Ok(EventModel::ServerModel(m)),
                stop_if_undelivered: true,
            })
            &&& st2.last_server_model_sent == Some(m)
        }),
{
}

/// The last announced model changes only together with an announcement of the new model.
pub proof fn law_model_recorded_only_when_announced(st: StreamModel, input: SseInput)
    ensures
        ({
            let (st2, e, fin) = input_step(st, input);
            st2.last_server_model_sent != st.last_server_model_sent ==> {
                &&& st2.last_server_model_sent is Some
                &&& exists|j: int|
                    0 <= j < e.len() && #[trigger] e[j] == (OutgoingModel {
                        item: Ok(EventModel::ServerModel(st2.last_server_model_sent->0)),
                        stop_if_undelivered: true,
                    })
            }
        }),
{
    let (st2, e, fin) = input_step(st, input);
    if st2.last_server_model_sent != st.last_server_model_sent {
        assert(e[0] == (OutgoingModel {
            item: Ok(EventModel::ServerModel(st2.last_server_model_sent->0)),
            stop_if_undelivered: true,
        }));
    }
}

/// An event whose data, with surrounding whitespace removed, is `[DONE]` finishes the
/// stream with a single completion that carries the known response id (empty when none
/// is known), no token usage, and ends the turn; the state is unchanged.
pub proof fn law_done_marker_completes(st: StreamModel, input: SseInput)
    requires
        input is Event,
        trim(input->data@) == done_marker(),
    ensures
        ({
            let (st2, e, fin) = input_step(st, input);
            &&& fin
            &&& st2 == st
            &&& e == seq![
                OutgoingModel {
                    item: Ok(
                        EventModel::Completed {
                            response_id: match st.response_id {
                                Some(id) => id,
                                None => Seq::empty(),
                            },
                            token_usage: None,
                            end_turn: Some(true),
                        },
                    ),
                    stop_if_undelivered: false,
                },
            ]
        }),
{
}

/// The text of a text delta; empty for any other event.
pub open spec fn delta_text(o: OutgoingModel) -> Seq<char> {
    match o.item {
        Ok(EventModel::OutputTextDelta(t)) => t,
        _ => Seq::empty(),
    }
}

/// The texts of all text deltas in `s`, concatenated in order.
pub open spec fn streamed_text(s: Seq<OutgoingModel>) -> Seq<char>
    decreases s.len(),
{
    if s.len() == 0 {
        Seq::empty()
    } else {
        streamed_text(s.drop_last()) + delta_text(s.last())
    }
}

/// The text fragments that the deltas of `choices` carry, concatenated in order.
pub open spec fn choices_text(choices: Seq<ChatChunkChoice>) -> Seq<char>
    decreases choices.len(),
{
    if choices.len() == 0 {
        Seq::empty()
    } else {
        choices_text(choices.drop_last()) + match choices.last().delta {
            Some(d) => match d.content {
                Some(t) => t@,
                None => Seq::empty(),
            },
            None => Seq::empty(),
        }
    }
}

proof fn lemma_streamed_text_append(a: Seq<OutgoingModel>, b: Seq<OutgoingModel>)
    ensures
        streamed_text(a + b) == streamed_text(a) + streamed_text(b),
    decreases b.len(),
{
    if b.len() == 0 {
        assert(a + b =~= a);
        assert(streamed_text(a) + streamed_text(b) =~= streamed_text(a));
    } else {
        lemma_streamed_text_append(a, b.drop_last());
        assert((a + b).drop_last() =~= a + b.drop_last());
        assert((a + b).last() == b.last());
        assert(streamed_text(a + b) =~= streamed_text(a) + streamed_text(b));
    }
}

/// Events that carry no streamed text: no text delta among them.
proof fn lemma_no_text(s: Seq<OutgoingModel>)
    requires
        forall|j: int|
            0 <= j < s.len() ==> !((#[trigger] s[j]).item matches Ok(
                EventModel::OutputTextDelta(_),
            )),
    ensures
        streamed_text(s) == Seq::<char>::empty(),
    decreases s.len(),
{
    if s.len() > 0 {
        let t = s.drop_last();
        assert forall|j: int| 0 <= j < t.len() implies !((#[trigger] t[j]).item matches Ok(
            EventModel::OutputTextDelta(_),
        )) by {
            assert(t[j] == s[j]);
        }
        lemma_no_text(t);
        assert(s.last() == s[s.len() - 1]);
        assert(streamed_text(s) =~= Seq::<char>::empty());
    }
}

proof fn lemma_tool_events_no_text(s: Seq<OutgoingModel>)
    requires
        all_tool_events(s),
    ensures
        streamed_text(s) == Seq::<char>::empty(),
{
    assert forall|j: int| 0 <= j < s.len() implies !((#[trigger] s[j]).item matches Ok(
        EventModel::OutputTextDelta(_),
    )) by {
        assert(is_tool_event(s[j]));
    }
    lemma_no_text(s);
}

proof fn lemma_single_text(o: OutgoingModel)
    ensures
        streamed_text(seq![o]) == delta_text(o),
{
    let empty: Seq<OutgoingModel> = seq![];
    assert(seq![o].drop_last() =~= empty);
    assert(streamed_text(empty) == Seq::<char>::empty());
    assert(seq![o].last() == o);
    assert(Seq::<char>::empty() + delta_text(o) =~= delta_text(o));
}

proof fn lemma_finish_no_text(acc: ChoiceModel, reason: Option<Seq<char>>)
    ensures
        streamed_text(finish_events(acc, reason)) == Seq::<char>::empty(),
{
    let e = finish_events(acc, reason);
    lemma_function_call_events(acc.tool_calls, sorted_keys(acc.tool_calls.dom()));
    assert forall|j: int| 0 <= j < e.len() implies !((#[trigger] e[j]).item matches Ok(
        EventModel::OutputTextDelta(_),
    )) by {
        if e == text_events(acc.content) {
        } else if e == tool_call_items(acc.tool_calls) {
            assert(is_tool_event(e[j]));
        }
    }
    lemma_no_text(e);
}

proof fn lemma_choice_text(acc: ChoiceModel, choice: ChatChunkChoice)
    ensures
        streamed_text(choice_step(acc, choice).1) == match choice.delta {
            Some(d) => match d.content {
                Some(t) => t@,
                None => Seq::empty(),
            },
            None => Seq::empty(),
        },
{
    let empty: Seq<OutgoingModel> = seq![];
    let none: Seq<char> = Seq::empty();
    let (a1, e1) = match choice.delta {
        Some(d) => delta_step(acc, d),
        None => (acc, seq![]),
    };
    let e2 = finish_events(a1, choice.finish_reason.deep_view());
    lemma_finish_no_text(a1, choice.finish_reason.deep_view());
    assert(streamed_text(empty) == none);
    if let Some(d) = choice.delta {
        let p = acc.content;
        let r_events = match d.reasoning_content {
            Some(r) => text_events(p) + seq![
                checked(EventModel::ReasoningContentDelta { delta: r@, content_index: 0 }),
            ],
            None => seq![],
        };
        assert(streamed_text(r_events) == none) by {
            if let Some(r) = d.reasoning_content {
                let last = seq![
                    checked(EventModel::ReasoningContentDelta { delta: r@, content_index: 0 }),
                ];
                lemma_single_text(last[0]);
                assert(last =~= seq![last[0]]);
                if p.len() > 0 {
                    lemma_single_text(text_events(p)[0]);
                    assert(text_events(p) =~= seq![text_events(p)[0]]);
                } else {
                    assert(text_events(p) =~= empty);
                }
                lemma_streamed_text_append(text_events(p), last);
            }
        }
        let tool_ev = match d.tool_calls {
            Some(tcs) => tool_calls_step(acc.tool_calls, tcs@).1,
            None => seq![],
        };
        if let Some(tcs) = d.tool_calls {
            lemma_tool_calls_step_events(acc.tool_calls, tcs@);
        }
        lemma_tool_events_no_text(tool_ev);
        let text_ev = match d.content {
            Some(t) => seq![checked(EventModel::OutputTextDelta(t@))],
            None => seq![],
        };
        assert(streamed_text(text_ev) == match d.content {
            Some(t) => t@,
            None => none,
        }) by {
            if d.content is Some {
                lemma_single_text(text_ev[0]);
                assert(text_ev =~= seq![text_ev[0]]);
            }
        }
        lemma_streamed_text_append(r_events, tool_ev);
        lemma_streamed_text_append(r_events + tool_ev, text_ev);
        assert(e1 == r_events + tool_ev + text_ev);
        assert(none + none =~= none);
        assert(none + streamed_text(text_ev) =~= streamed_text(text_ev));
    }
    lemma_streamed_text_append(e1, e2);
    assert(streamed_text(e1) + none =~= streamed_text(e1));
}

proof fn lemma_choices_text(acc: ChoiceModel, choices: Seq<ChatChunkChoice>)
    ensures
        streamed_text(choices_step(acc, choices).1) == choices_text(choices),
    decreases choices.len(),
{
    if choices.len() == 0 {
        let empty: Seq<OutgoingModel> = seq![];
        assert(streamed_text(empty) =~= Seq::<char>::empty());
    } else {
        lemma_choices_text(acc, choices.drop_last());
        let (a1, e1) = choices_step(acc, choices.drop_last());
        lemma_choice_text(a1, choices.last());
        lemma_streamed_text_append(e1, choice_step(a1, choices.last()).1);
    }
}

/// The text deltas a chunk emits are exactly the text fragments of its choices, in order:
/// each fragment is forwarded once, unchanged, and nothing else is forwarded as text.
pub proof fn law_chunk_text_is_forwarded(st: StreamModel, input: SseInput)
    requires
        input is Event,
        trim(input->data@) != done_marker(),
        !reports_error(input->error_payload),
        input->chunk is Some,
    ensures
        streamed_text(input_step(st, input).1) == match input->chunk->0.choices {
            Some(cs) => choices_text(cs@),
            None => Seq::empty(),
        },
{
    let c = input->chunk->0;
    let empty: Seq<OutgoingModel> = seq![];
    let none: Seq<char> = Seq::empty();
    let (st2, e, fin) = chunk_step(st, c);
    let response_id = if st.response_id is None { c.id.deep_view() } else { st.response_id };
    let model_events = match c.model {
        Some(m) => if st.last_server_model_sent != Some(m@) {
            seq![checked(EventModel::ServerModel(m@))]
        } else {
            seq![]
        },
        None => seq![],
    };
    assert(streamed_text(model_events) == none) by {
        if model_events.len() > 0 {
            lemma_single_text(model_events[0]);
            assert(model_events =~= seq![model_events[0]]);
        } else {
            assert(model_events =~= empty);
        }
    }
    let choice_events = match c.choices {
        Some(cs) => if cs@.len() > 0 {
            choices_step(choice_at(st.choices, 0), cs@).1
        } else {
            seq![]
        },
        None => seq![],
    };
    assert(streamed_text(choice_events) == match c.choices {
        Some(cs) => choices_text(cs@),
        None => none,
    }) by {
        if let Some(cs) = c.choices {
            if cs@.len() > 0 {
                lemma_choices_text(choice_at(st.choices, 0), cs@);
            } else {
                assert(streamed_text(empty) == none);
            }
        } else {
            assert(streamed_text(empty) == none);
        }
    }
    lemma_streamed_text_append(model_events, choice_events);
    let body = model_events + choice_events;
    if let Some(u) = c.usage {
        let done = seq![checked(completed(response_id, Some(usage_model(u))))];
        lemma_single_text(done[0]);
        assert(done =~= seq![done[0]]);
        assert(e == body + done);
        lemma_streamed_text_append(body, done);
        assert(streamed_text(body) + none =~= streamed_text(body));
    } else {
        assert(e == body);
    }
    assert(none + streamed_text(choice_events) =~= streamed_text(choice_events));
}

/// The reasoning fragments that reasoning deltas in `s` carry, in order.
pub open spec fn reasoning_of(s: Seq<OutgoingModel>) -> Seq<Seq<char>>
    decreases s.len(),
{
    if s.len() == 0 {
        Seq::empty()
    } else {
        reasoning_of(s.drop_last()) + match s.last().item {
            Ok(EventModel::ReasoningContentDelta { delta, content_index }) => if content_index
                == 0 {
                seq![delta]
            } else {
                seq![Seq::empty()]
            },
            _ => Seq::empty(),
        }
    }
}

/// The reasoning fragments that the deltas of `choices` carry, in order.
pub open spec fn choices_reasoning(choices: Seq<ChatChunkChoice>) -> Seq<Seq<char>>
    decreases choices.len(),
{
    if choices.len() == 0 {
        Seq::empty()
    } else {
        choices_reasoning(choices.drop_last()) + match choices.last().delta {
            Some(d) => match d.reasoning_content {
                Some(r) => seq![r@],
                None => Seq::empty(),
            },
            None => Seq::empty(),
        }
    }
}

proof fn lemma_reasoning_append(a: Seq<OutgoingModel>, b: Seq<OutgoingModel>)
    ensures
        reasoning_of(a + b) == reasoning_of(a) + reasoning_of(b),
    decreases b.len(),
{
    if b.len() == 0 {
        assert(a + b =~= a);
        assert(reasoning_of(a) + reasoning_of(b) =~= reasoning_of(a));
    } else {
        lemma_reasoning_append(a, b.drop_last());
        assert((a + b).drop_last() =~= a + b.drop_last());
        assert((a + b).last() == b.last());
        assert(reasoning_of(a + b) =~= reasoning_of(a) + reasoning_of(b));
    }
}

proof fn lemma_no_reasoning(s: Seq<OutgoingModel>)
    requires
        forall|j: int|
            0 <= j < s.len() ==> !((#[trigger] s[j]).item matches Ok(
                EventModel::ReasoningContentDelta { .. },
            )),
    ensures
        reasoning_of(s) == Seq::<Seq<char>>::empty(),
    decreases s.len(),
{
    if s.len() > 0 {
        let t = s.drop_last();
        assert forall|j: int| 0 <= j < t.len() implies !((#[trigger] t[j]).item matches Ok(
            EventModel::ReasoningContentDelta { .. },
        )) by {
            assert(t[j] == s[j]);
        }
        lemma_no_reasoning(t);
        assert(s.last() == s[s.len() - 1]);
        assert(reasoning_of(s) =~= Seq::<Seq<char>>::empty());
    }
}

proof fn lemma_reasoning_single(o: OutgoingModel)
    requires
        !(o.item matches Ok(EventModel::ReasoningContentDelta { .. })),
    ensures
        reasoning_of(seq![o]) == Seq::<Seq<char>>::empty(),
{
    let s = seq![o];
    assert(s[0] == o);
    lemma_no_reasoning(s);
}

proof fn lemma_reasoning_delta(r: Seq<char>)
    ensures
        reasoning_of(
            seq![checked(EventModel::ReasoningContentDelta { delta: r, content_index: 0 })],
        ) == seq![r],
{
    let s = seq![checked(EventModel::ReasoningContentDelta { delta: r, content_index: 0 })];
    let empty: Seq<OutgoingModel> = seq![];
    assert(s.drop_last() =~= empty);
    assert(reasoning_of(empty) == Seq::<Seq<char>>::empty());
    assert(s.last() == s[0]);
    assert(reasoning_of(s) =~= seq![r]);
}

proof fn lemma_finish_no_reasoning(acc: ChoiceModel, reason: Option<Seq<char>>)
    ensures
        reasoning_of(finish_events(acc, reason)) == Seq::<Seq<char>>::empty(),
{
    let e = finish_events(acc, reason);
    lemma_function_call_events(acc.tool_calls, sorted_keys(acc.tool_calls.dom()));
    assert forall|j: int| 0 <= j < e.len() implies !((#[trigger] e[j]).item matches Ok(
        EventModel::ReasoningContentDelta { .. },
    )) by {
        if e == text_events(acc.content) {
        } else if e == tool_call_items(acc.tool_calls) {
            assert(is_tool_event(e[j]));
        }
    }
    lemma_no_reasoning(e);
}

proof fn lemma_tool_events_no_reasoning(s: Seq<OutgoingModel>)
    requires
        all_tool_events(s),
    ensures
        reasoning_of(s) == Seq::<Seq<char>>::empty(),
{
    assert forall|j: int| 0 <= j < s.len() implies !((#[trigger] s[j]).item matches Ok(
        EventModel::ReasoningContentDelta { .. },
    )) by {
        assert(is_tool_event(s[j]));
    }
    lemma_no_reasoning(s);
}

proof fn lemma_choice_reasoning(acc: ChoiceModel, choice: ChatChunkChoice)
    ensures
        reasoning_of(choice_step(acc, choice).1) == match choice.delta {
            Some(d) => match d.reasoning_content {
                Some(r) => seq![r@],
                None => Seq::empty(),
            },
            None => Seq::<Seq<char>>::empty(),
        },
{
    let empty: Seq<OutgoingModel> = seq![];
    let none: Seq<Seq<char>> = Seq::empty();
    assert(reasoning_of(empty) == none);
    let (a1, e1) = match choice.delta {
        Some(d) => delta_step(acc, d),
        None => (acc, seq![]),
    };
    let e2 = finish_events(a1, choice.finish_reason.deep_view());
    lemma_finish_no_reasoning(a1, choice.finish_reason.deep_view());
    if let Some(d) = choice.delta {
        let p = acc.content;
        let r_events = match d.reasoning_content {
            Some(r) => text_events(p) + seq![
                checked(EventModel::ReasoningContentDelta { delta: r@, content_index: 0 }),
            ],
            None => seq![],
        };
        assert(reasoning_of(r_events) == match d.reasoning_content {
            Some(r) => seq![r@],
            None => none,
        }) by {
            if let Some(r) = d.reasoning_content {
                let last = seq![
                    checked(EventModel::ReasoningContentDelta { delta: r@, content_index: 0 }),
                ];
                lemma_reasoning_delta(r@);
                if p.len() > 0 {
                    lemma_reasoning_single(text_events(p)[0]);
                    assert(text_events(p) =~= seq![text_events(p)[0]]);
                } else {
                    assert(text_events(p) =~= empty);
                }
                lemma_reasoning_append(text_events(p), last);
                assert(none + seq![r@] =~= seq![r@]);
            }
        }
        let tool_ev = match d.tool_calls {
            Some(tcs) => tool_calls_step(acc.tool_calls, tcs@).1,
            None => seq![],
        };
        if let Some(tcs) = d.tool_calls {
            lemma_tool_calls_step_events(acc.tool_calls, tcs@);
        }
        lemma_tool_events_no_reasoning(tool_ev);
        let text_ev = match d.content {
            Some(t) => seq![checked(EventModel::OutputTextDelta(t@))],
            None => seq![],
        };
        assert(reasoning_of(text_ev) == none) by {
            if d.content is Some {
                lemma_reasoning_single(text_ev[0]);
                assert(text_ev =~= seq![text_ev[0]]);
            }
        }
        lemma_reasoning_append(r_events, tool_ev);
        lemma_reasoning_append(r_events + tool_ev, text_ev);
        assert(e1 == r_events + tool_ev + text_ev);
        assert(reasoning_of(r_events) + none =~= reasoning_of(r_events));
        assert(reasoning_of(r_events) + none + none =~= reasoning_of(r_events));
    }
    lemma_reasoning_append(e1, e2);
    assert(reasoning_of(e1) + none =~= reasoning_of(e1));
}

proof fn lemma_choices_reasoning(acc: ChoiceModel, choices: Seq<ChatChunkChoice>)
    ensures
        reasoning_of(choices_step(acc, choices).1) == choices_reasoning(choices),
    decreases choices.len(),
{
    if choices.len() == 0 {
        let empty: Seq<OutgoingModel> = seq![];
        assert(reasoning_of(empty) =~= Seq::<Seq<char>>::empty());
    } else {
        lemma_choices_reasoning(acc, choices.drop_last());
        let (a1, e1) = choices_step(acc, choices.drop_last());
        lemma_choice_reasoning(a1, choices.last());
        lemma_reasoning_append(e1, choice_step(a1, choices.last()).1);
    }
}

/// The reasoning deltas a chunk emits are exactly the reasoning fragments of its choices:
/// one delta per fragment, in order, with that text and content index 0.
pub proof fn law_chunk_reasoning_is_forwarded(st: StreamModel, input: SseInput)
    requires
        input is Event,
        trim(input->data@) != done_marker(),
        !reports_error(input->error_payload),
        input->chunk is Some,
    ensures
        reasoning_of(input_step(st, input).1) == match input->chunk->0.choices {
            Some(cs) => choices_reasoning(cs@),
            None => Seq::empty(),
        },
{
    let c = input->chunk->0;
    let empty: Seq<OutgoingModel> = seq![];
    let none: Seq<Seq<char>> = Seq::empty();
    assert(reasoning_of(empty) == none);
    let (st2, e, fin) = chunk_step(st, c);
    let response_id = if st.response_id is None { c.id.deep_view() } else { st.response_id };
    let model_events = match c.model {
        Some(m) => if st.last_server_model_sent != Some(m@) {
            seq![checked(EventModel::ServerModel(m@))]
        } else {
            seq![]
        },
        None => seq![],
    };
    assert(reasoning_of(model_events) == none) by {
        if model_events.len() > 0 {
            lemma_reasoning_single(model_events[0]);
            assert(model_events =~= seq![model_events[0]]);
        } else {
            assert(model_events =~= empty);
        }
    }
    let choice_events = match c.choices {
        Some(cs) => if cs@.len() > 0 {
            choices_step(choice_at(st.choices, 0), cs@).1
        } else {
            seq![]
        },
        None => seq![],
    };
    assert(reasoning_of(choice_events) == match c.choices {
        Some(cs) => choices_reasoning(cs@),
        None => none,
    }) by {
        if let Some(cs) = c.choices {
            if cs@.len() > 0 {
                lemma_choices_reasoning(choice_at(st.choices, 0), cs@);
            }
        }
    }
    lemma_reasoning_append(model_events, choice_events);
    let body = model_events + choice_events;
    if let Some(u) = c.usage {
        let done = seq![checked(completed(response_id, Some(usage_model(u))))];
        lemma_reasoning_single(done[0]);
        assert(done =~= seq![done[0]]);
        assert(e == body + done);
        lemma_reasoning_append(body, done);
        assert(reasoning_of(body) + none =~= reasoning_of(body));
    } else {
        assert(e == body);
    }
    assert(none + reasoning_of(choice_events) =~= reasoning_of(choice_events));
}

} // verus!
