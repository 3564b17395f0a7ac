use vstd::prelude::*;

use std::collections::BTreeMap;

use crate::accumulator::{
    apply_choices, choices_step, empty_choice, ChoiceModel, DeltaAccumulator,
};
use crate::chunk::{ChatChunk, ChatChunkUsage, ChatErrorPayload};
use crate::error::{categorize_chat_error, chat_error_model, ApiError, ApiErrorModel};
use crate::events::{
    lemma_push_models, checked, outgoing_models, plain, EventModel, Outgoing, OutgoingModel, ResponseEvent,
    TokenUsage,
};
use crate::text::{done_marker, is_done_marker, same_text, trim};

verus! {

broadcast use vstd::std_specs::btree::group_btree_axioms;

/// What the stream has accumulated across chunks.
#[derive(Debug)]
pub struct ChatChunkAccumulator {
    pub choices: BTreeMap<i32, DeltaAccumulator>,
    pub last_server_model_sent: Option<String>,
}

/// The state of one Chat Completions stream between two SSE events.
#[derive(Debug)]
pub struct ChatStream {
    acc: ChatChunkAccumulator,
    response_id: Option<String>,
}

/// Abstract value of a [`ChatStream`].
pub struct StreamModel {
    pub choices: Map<i32, ChoiceModel>,
    pub last_server_model_sent: Option<Seq<char>>,
    pub response_id: Option<Seq<char>>,
}

impl View for ChatStream {
    type V = StreamModel;

    closed spec fn view(&self) -> StreamModel {
        StreamModel {
            choices: self.acc.choices@.map_values(|d: DeltaAccumulator| d@),
            last_server_model_sent: self.acc.last_server_model_sent.deep_view(),
            response_id: self.response_id.deep_view(),
        }
    }
}

/// What the transport delivered: one SSE event with the results of decoding its data as
/// an error payload and as a chunk (`None` where the data does not decode), the end of
/// the stream, a failure of the stream with its message, or no event within the idle
/// timeout.
#[derive(Debug)]
pub enum SseInput {
    Event { data: String, error_payload: Option<ChatErrorPayload>, chunk: Option<ChatChunk> },
    Closed,
    Failed(String),
    IdleTimeout,
}

/// The events to hand on for one input, and whether the stream is over.
#[derive(Debug)]
pub struct StepOutput {
    pub events: Vec<Outgoing>,
    pub finished: bool,
}

/// The state of a stream before any event.
pub open spec fn initial_model() -> StreamModel {
    StreamModel { choices: Map::empty(), last_server_model_sent: None, response_id: None }
}

/// The accumulator of choice `k`, or an empty one.
pub open spec fn choice_at(m: Map<i32, ChoiceModel>, k: i32) -> ChoiceModel {
    if m.contains_key(k) {
        m[k]
    } else {
        empty_choice()
    }
}

/// The token accounting of the provider's usage report.
pub open spec fn usage_model(u: ChatChunkUsage) -> TokenUsage {
    TokenUsage {
        input_tokens: match u.prompt_tokens {
            Some(n) => n,
            None => 0,
        },
        cached_input_tokens: 0,
        output_tokens: match u.completion_tokens {
            Some(n) => n,
            None => 0,
        },
        reasoning_output_tokens: 0,
        total_tokens: u.total_tokens,
    }
}

/// The completion event for the response id known so far (empty when none is).
pub open spec fn completed(response_id: Option<Seq<char>>, usage: Option<TokenUsage>) -> EventModel {
    EventModel::Completed {
        response_id: match response_id {
            Some(id) => id,
            None => Seq::empty(),
        },
        token_usage: usage,
        end_turn: Some(true),
    }
}

/// Folds one chunk: the first chunk id becomes the response id, a model other than the
/// last announced one is announced, all choices are folded into choice 0, and a usage
/// report completes the response and ends the stream.
pub open spec fn chunk_step(st: StreamModel, chunk: ChatChunk) -> (StreamModel, Seq<OutgoingModel>, bool) {
    let response_id = if st.response_id is None {
        chunk.id.deep_view()
    } else {
        st.response_id
    };
    let (last, model_events) = match chunk.model {
        Some(m) => if st.last_server_model_sent != Some(m@) {
            (Some(m@), seq![checked(EventModel::ServerModel(m@))])
        } else {
            (st.last_server_model_sent, seq![])
        },
        None => (st.last_server_model_sent, seq![]),
    };
    let (choices, choice_events) = match chunk.choices {
        Some(cs) => if cs@.len() > 0 {
            let (a, e) = choices_step(choice_at(st.choices, 0), cs@);
            (st.choices.insert(0, a), e)
        } else {
            (st.choices, seq![])
        },
        None => (st.choices, seq![]),
    };
    let next = StreamModel { choices, last_server_model_sent: last, response_id };
    match chunk.usage {
        Some(u) => (
            next,
            model_events + choice_events + seq![
                checked(completed(response_id, Some(usage_model(u)))),
            ],
            true,
        ),
        None => (next, model_events + choice_events, false),
    }
}

/// The message of a provider error, or a generic one.
pub open spec fn error_message(message: Option<Seq<char>>) -> Seq<char> {
    match message {
        Some(m) => m,
        None => "chat completions error"@,
    }
}

/// Whether an error payload reports an error.
pub open spec fn reports_error(p: Option<ChatErrorPayload>) -> bool {
    p matches Some(payload) && payload.error is Some
}

/// Reacts to one input: `[DONE]` completes, a reported error fails, a chunk is folded,
/// undecodable data is skipped; the end of the stream completes; a failure or the idle
/// timeout fails.
pub open spec fn input_step(st: StreamModel, input: SseInput) -> (StreamModel, Seq<OutgoingModel>, bool) {
    match input {
        SseInput::Event { data, error_payload, chunk } => if trim(data@) == done_marker() {
            (st, seq![plain(completed(st.response_id, None))], true)
        } else if reports_error(error_payload) {
            let detail = error_payload->0.error->0;
            (
                st,
                seq![
                    OutgoingModel {
                        item: Err(
                            chat_error_model(
                                detail.code.deep_view(),
                                error_message(detail.message.deep_view()),
                            ),
                        ),
                        stop_if_undelivered: false,
                    },
                ],
                true,
            )
        } else {
            match chunk {
                Some(c) => chunk_step(st, c),
                None => (st, seq![], false),
            }
        },
        SseInput::Closed => (st, seq![plain(completed(st.response_id, None))], true),
        SseInput::Failed(message) => (
            st,
            seq![
                OutgoingModel {
                    item: Err(ApiErrorModel::Stream(message@)),
                    stop_if_undelivered: false,
                },
            ],
            true,
        ),
        SseInput::IdleTimeout => (
            st,
            seq![
                OutgoingModel {
                    item: Err(ApiErrorModel::Stream("idle timeout waiting for SSE"@)),
                    stop_if_undelivered: false,
                },
            ],
            true,
        ),
    }
}

/// The events sent before the first SSE event: the model the server named, if any
/// (sent without regard to delivery), then `Created`.
pub open spec fn start_events(server_model: Option<Seq<char>>) -> Seq<OutgoingModel> {
    match server_model {
        Some(m) => seq![plain(EventModel::ServerModel(m)), checked(EventModel::Created)],
        None => seq![checked(EventModel::Created)],
    }
}

fn copy_text(s: &Option<String>) -> (r: Option<String>)
    ensures
        r.deep_view() == s.deep_view(),
{
    match s {
        Some(t) => Some(t.clone()),
        None => None,
    }
}

/// The events sent when a stream starts, given the model the server named in its headers.
pub fn start_events_for(server_model: Option<String>) -> (events: Vec<Outgoing>)
    ensures
        outgoing_models(events@) == start_events(server_model.deep_view()),
{
    let mut events: Vec<Outgoing> = Vec::new();
    if let Some(m) = server_model {
        let o = Outgoing { item: Ok(ResponseEvent::ServerModel(m)), stop_if_undelivered: false };
        proof {
            lemma_push_models(events@, o);
        }
        events.push(o);
    }
    let o = Outgoing { item: Ok(ResponseEvent::Created), stop_if_undelivered: true };
    proof {
        lemma_push_models(events@, o);
    }
    events.push(o);
    proof {
        assert(outgoing_models(events@) =~= start_events(server_model.deep_view()));
    }
    events
}

/// Emits the completion of the response, with the response id known so far.
pub fn emit_completed(response_id: &Option<String>, out: &mut Vec<Outgoing>)
    ensures
        outgoing_models(final(out)@) == outgoing_models(old(out)@).push(
            plain(completed(response_id.deep_view(), None)),
        ),
{
    let id = match response_id {
        Some(id) => id.clone(),
        None => String::new(),
    };
    let o = Outgoing {
        item: Ok(ResponseEvent::Completed { response_id: id, token_usage: None, end_turn: Some(true) }),
        stop_if_undelivered: false,
    };
    proof {
        lemma_push_models(out@, o);
    }
    out.push(o);
}

fn error_event(e: ApiError) -> (o: Outgoing)
    ensures
        o@ == (OutgoingModel { item: Err(e@), stop_if_undelivered: false }),
{
    Outgoing { item: Err(e), stop_if_undelivered: false }
}

impl ChatStream {
    /// A stream before its first event.
    pub fn new() -> (s: ChatStream)
        ensures
            s@ == initial_model(),
    {
        let s = ChatStream {
            acc: ChatChunkAccumulator { choices: BTreeMap::new(), last_server_model_sent: None },
            response_id: None,
        };
        assert(s@.choices =~= Map::<i32, ChoiceModel>::empty());
        s
    }

    /// Folds one chunk into the stream, emitting to `out`; true when the chunk ends the stream.
    fn apply_chunk(&mut self, chunk: &ChatChunk, out: &mut Vec<Outgoing>) -> (finished: bool)
        ensures
            ({
                let (st, e, fin) = chunk_step(old(self)@, *chunk);
                &&& final(self)@ == st
                &&& outgoing_models(final(out)@) == outgoing_models(old(out)@) + e
                &&& finished == fin
            }),
    {
        let ghost st0 = self@;
        let ghost out0 = outgoing_models(out@);
        if self.response_id.is_none() {
            self.response_id = copy_text(&chunk.id);
        }
        if let Some(model) = &chunk.model {
            let differs = match &self.acc.last_server_model_sent {
                Some(last) => !same_text(last.as_str(), model.as_str()),
                None => true,
            };
            if differs {
                self.acc.last_server_model_sent = Some(model.clone());
                let o = Outgoing {
                    item: Ok(ResponseEvent::ServerModel(model.clone())),
                    stop_if_undelivered: true,
                };
                proof {
                    lemma_push_models(out@, o);
                }
                out.push(o);
            }
        }
        if let Some(choices) = &chunk.choices {
            if choices.len() > 0 {
                let mut c = match self.acc.choices.remove(&0) {
                    Some(c) => c,
                    None => DeltaAccumulator { content: String::new(), tool_calls: BTreeMap::new() },
                };
                assert(c@ == choice_at(st0.choices, 0)) by {
                    assert(c@.tool_calls =~= choice_at(st0.choices, 0).tool_calls);
                }
                apply_choices(&mut c, choices, out);
                let ghost cv = c@;
                self.acc.choices.insert(0, c);
                assert(self.acc.choices@.map_values(|d: DeltaAccumulator| d@) =~= st0.choices.insert(0, cv));
            }
        }
        if let Some(usage) = &chunk.usage {
            let id = match &self.response_id {
                Some(id) => id.clone(),
                None => String::new(),
            };
            let token_usage = TokenUsage {
                input_tokens: match usage.prompt_tokens {
                    Some(n) => n,
                    None => 0,
                },
                cached_input_tokens: 0,
                output_tokens: match usage.completion_tokens {
                    Some(n) => n,
                    None => 0,
                },
                reasoning_output_tokens: 0,
                total_tokens: usage.total_tokens,
            };
            let o = Outgoing {
                item: Ok(ResponseEvent::Completed { response_id: id, token_usage: Some(token_usage), end_turn: Some(true) }),
                stop_if_undelivered: true,
            };
            proof {
                lemma_push_models(out@, o);
            }
            out.push(o);
            proof {
                let (st, e, fin) = chunk_step(st0, *chunk);
                assert(outgoing_models(out@) =~= out0 + e);
            }
            return true;
        }
        proof {
            let (st, e, fin) = chunk_step(st0, *chunk);
            assert(outgoing_models(out@) =~= out0 + e);
        }
        false
    }

    /// Decides what one input of the transport leads to: the events to hand on, in order,
    /// and whether the stream is over.
    pub fn process_sse_event(&mut self, input: SseInput) -> (r: StepOutput)
        ensures
            ({
                let (st, e, fin) = input_step(old(self)@, input);
                &&& final(self)@ == st
                &&& outgoing_models(r.events@) == e
                &&& r.finished == fin
            }),
    {
        let mut out: Vec<Outgoing> = Vec::new();
        proof {
            reveal_strlit("idle timeout waiting for SSE");
            reveal_strlit("chat completions error");
        }
        match input {
            SseInput::Event { data, error_payload, chunk } => {
                if is_done_marker(data.as_str()) {
                    emit_completed(&self.response_id, &mut out);
                    return StepOutput { events: out, finished: true };
                }
                if let Some(payload) = &error_payload {
                    if let Some(detail) = &payload.error {
                        let msg = match &detail.message {
                            Some(m) => m.clone(),
                            None => String::from_str("chat completions error"),
                        };
                        let err = match &detail.code {
                            Some(code) => categorize_chat_error(Some(code.as_str()), msg.as_str()),
                            None => categorize_chat_error(None, msg.as_str()),
                        };
                        let o = error_event(err);
                        proof {
                            lemma_push_models(out@, o);
                        }
                        out.push(o);
                        return StepOutput { events: out, finished: true };
                    }
                }
                match &chunk {
                    Some(c) => {
                        let finished = self.apply_chunk(c, &mut out);
                        assert(outgoing_models(out@) =~= seq![] + outgoing_models(out@));
                        StepOutput { events: out, finished }
                    },
                    None => {
                        assert(outgoing_models(out@) =~= seq![]);
                        StepOutput { events: out, finished: false }
                    },
                }
            },
            SseInput::Closed => {
                emit_completed(&self.response_id, &mut out);
                StepOutput { events: out, finished: true }
            },
            SseInput::Failed(message) => {
                let o = error_event(ApiError::Stream(message));
                proof {
                    lemma_push_models(out@, o);
                }
                out.push(o);
                StepOutput { events: out, finished: true }
            },
            SseInput::IdleTimeout => {
                let o = error_event(ApiError::Stream(String::from_str("idle timeout waiting for SSE")));
                proof {
                    lemma_push_models(out@, o);
                }
                out.push(o);
                StepOutput { events: out, finished: true }
            },
        }
    }
}

} // verus!
