//! The conversation with an agent: its turns, and how they grow from the events that
//! the daemon streams.

use vstd::prelude::*;

use crate::json::Json;
use crate::text::{chars_of, concat2, copy_str, is_blank, str_eq, string_of_range, trim};

verus! {

broadcast use vstd::string::group_string_axioms;

use crate::json::JsonView;
use crate::ordered_map::{lemma_filter_from, lemma_filter_step, lemma_filter_to};
use crate::text::{blank, law_trimming_takes_white_space_alone, opt_chars, trimmed};

/// A JSON value of serde_json.
#[verifier::external_type_specification]
#[verifier::external_body]
pub struct ExJsonValue(serde_json::Value);

/// The value that a JSON text is read as, nothing where it is no JSON.
pub uninterp spec fn json_value(raw: Seq<char>) -> Option<serde_json::Value>;

/// The compact text of a JSON value.
pub uninterp spec fn json_text(value: serde_json::Value) -> Option<Seq<char>>;

/// `serde_json::from_str` reads a JSON text. What it reads goes by the name `json_value`.
#[verifier::external_body]
fn read_json(raw: &str) -> (r: Option<serde_json::Value>)
    ensures
        r == json_value(raw@),
{
    serde_json::from_str(raw).ok()
}

/// `serde_json::to_string` writes a JSON value in its compact form. What that form is goes
/// by the name `json_text`.
#[verifier::external_body]
fn write_json(value: &serde_json::Value) -> (r: Option<String>)
    ensures
        opt_chars(r) == json_text(*value),
{
    serde_json::to_string(value).ok()
}

/// The compact form of a JSON text, nothing where it is no JSON.
pub open spec fn compact_json_text(raw: Seq<char>) -> Option<Seq<char>> {
    match json_value(raw) {
        Some(value) => json_text(value),
        None => None,
    }
}

fn compact_json(raw: &str) -> (r: Option<String>)
    ensures
        opt_chars(r) == compact_json_text(raw@),
{
    match read_json(raw) {
        Some(value) => write_json(&value),
        None => None,
    }
}

/// Who speaks.
#[derive(Clone, Copy, Debug, PartialEq, Eq, Structural)]
pub enum AgentRole {
    User,
    Assistant,
}

/// How a tool call stands.
#[derive(Clone, Copy, Debug, PartialEq, Eq, Structural)]
pub enum ToolStatus {
    Running,
    Succeeded,
    Failed,
}

/// One block of a turn.
#[derive(Clone, Debug, PartialEq, Eq)]
pub enum AgentBlock {
    Text(String),
    Thinking { content: String, expanded: bool },
    ToolCall {
        call_id: String,
        name: String,
        args_preview: String,
        output: String,
        status: ToolStatus,
        expanded: bool,
    },
    Component { component_id: String, kind: String, props: Json },
}

/// One block of a turn.
pub enum BlockView {
    Text(Seq<char>),
    Thinking(Seq<char>, bool),
    ToolCall(ToolCallView),
    Component(Seq<char>, Seq<char>, JsonView),
}

/// A tool call.
pub struct ToolCallView {
    pub call_id: Seq<char>,
    pub name: Seq<char>,
    pub args_preview: Seq<char>,
    pub output: Seq<char>,
    pub status: ToolStatus,
    pub expanded: bool,
}

impl View for AgentBlock {
    type V = BlockView;

    open spec fn view(&self) -> BlockView {
        match *self {
            AgentBlock::Text(s) => BlockView::Text(s@),
            AgentBlock::Thinking { content, expanded } => BlockView::Thinking(content@, expanded),
            AgentBlock::ToolCall { call_id, name, args_preview, output, status, expanded } => {
                BlockView::ToolCall(
                    ToolCallView {
                        call_id: call_id@,
                        name: name@,
                        args_preview: args_preview@,
                        output: output@,
                        status,
                        expanded,
                    },
                )
            },
            AgentBlock::Component { component_id, kind, props } => BlockView::Component(
                component_id@,
                kind@,
                props@,
            ),
        }
    }
}

/// One turn of the conversation.
#[derive(Clone, Debug, PartialEq, Eq)]
pub struct AgentTurn {
    pub turn_id: Option<String>,
    pub role: AgentRole,
    pub blocks: Vec<AgentBlock>,
}

/// One turn of the conversation.
#[verifier::ext_equal]
pub struct TurnView {
    pub turn_id: Option<Seq<char>>,
    pub role: AgentRole,
    pub blocks: Seq<BlockView>,
}

/// The views of a list of blocks.
pub open spec fn block_views(s: Seq<AgentBlock>) -> Seq<BlockView> {
    Seq::new(s.len(), |i: int| s[i]@)
}

/// The views of a list of turns.
pub open spec fn turn_views(s: Seq<AgentTurn>) -> Seq<TurnView> {
    Seq::new(s.len(), |i: int| s[i]@)
}

impl View for AgentTurn {
    type V = TurnView;

    open spec fn view(&self) -> TurnView {
        TurnView {
            turn_id: opt_chars(self.turn_id),
            role: self.role,
            blocks: block_views(self.blocks@),
        }
    }
}

impl AgentTurn {
    /// A turn in which the user says something.
    #[must_use]
    pub fn user(text: String) -> (r: Self)
        ensures
            r@ == (TurnView {
                turn_id: None,
                role: AgentRole::User,
                blocks: seq![BlockView::Text(text@)],
            }),
    {
        let mut blocks: Vec<AgentBlock> = Vec::new();
        let ghost t = text@;
        blocks.push(AgentBlock::Text(text));
        assert(block_views(blocks@) =~= seq![BlockView::Text(t)]);
        AgentTurn { turn_id: None, role: AgentRole::User, blocks }
    }

    /// A turn of the assistant, still empty.
    #[must_use]
    pub fn assistant(turn_id: String) -> (r: Self)
        ensures
            r@ == (TurnView {
                turn_id: Some(turn_id@),
                role: AgentRole::Assistant,
                blocks: Seq::empty(),
            }),
    {
        let blocks: Vec<AgentBlock> = Vec::new();
        assert(block_views(blocks@) =~= Seq::empty());
        AgentTurn { turn_id: Some(turn_id), role: AgentRole::Assistant, blocks }
    }
}

/// Token counts; the speed is held by its double-precision bit pattern.
#[derive(Clone, Copy, Debug, PartialEq, Eq, Structural)]
pub struct TokenStats {
    pub input: u64,
    pub output: u64,
    pub cache_read: u64,
    pub tokens_per_second_bits: u64,
}

impl Default for TokenStats {
    fn default() -> (r: Self)
        ensures
            r == (TokenStats { input: 0, output: 0, cache_read: 0, tokens_per_second_bits: 0 }),
    {
        TokenStats { input: 0, output: 0, cache_read: 0, tokens_per_second_bits: 0 }
    }
}

/// A tool call that starts; its arguments are a JSON text.
#[derive(Clone, Debug, PartialEq, Eq)]
pub struct ToolCallSummary {
    pub id: String,
    pub name: String,
    pub args_json: String,
}

/// What a tool call gave.
#[derive(Clone, Debug, PartialEq, Eq)]
pub struct ToolResult {
    pub ok: bool,
    pub output: String,
}

/// What the daemon streams.
#[allow(inconsistent_fields)]
#[derive(Clone, Debug, PartialEq, Eq)]
pub enum AgentEvent {
    SessionCreated { session_id: String, title: String, cwd: String },
    TurnStarted { turn_id: String, session_id: String, model: Option<String> },
    AssistantTextDelta { session_id: String, turn_id: String, delta: String },
    ThinkingDelta { session_id: String, turn_id: String, delta: String },
    ToolCallStarted { session_id: String, turn_id: String, call: ToolCallSummary },
    ToolCallChunk { session_id: String, turn_id: String, call_id: String, chunk: String },
    ToolCallFinished { session_id: String, turn_id: String, call_id: String, result: ToolResult },
    TurnFinished {
        session_id: String,
        turn_id: String,
        status: String,
        error: Option<String>,
        wall_ms: Option<u64>,
        output_tokens: Option<u64>,
        input_tokens: Option<u64>,
        cache_read_tokens: Option<u64>,
        tokens_per_second_bits: Option<u64>,
    },
    ComponentRender {
        session_id: String,
        component_id: String,
        kind: String,
        props: Json,
        replace: bool,
    },
    ComponentUnmount { session_id: String, component_id: String },
    /// Events of extensions; they belong to a session where they have a scope.
    Extension { extension: String, payload: Json, scope: Option<String> },
    Other,
}

impl AgentEvent {
    /// The session that an event names, whether or not the name is empty.
    pub open spec fn session_text(self) -> Seq<char> {
        match self {
            AgentEvent::SessionCreated { session_id, .. } => session_id@,
            AgentEvent::TurnStarted { session_id, .. } => session_id@,
            AgentEvent::AssistantTextDelta { session_id, .. } => session_id@,
            AgentEvent::ThinkingDelta { session_id, .. } => session_id@,
            AgentEvent::ToolCallStarted { session_id, .. } => session_id@,
            AgentEvent::ToolCallChunk { session_id, .. } => session_id@,
            AgentEvent::ToolCallFinished { session_id, .. } => session_id@,
            AgentEvent::TurnFinished { session_id, .. } => session_id@,
            AgentEvent::ComponentRender { session_id, .. } => session_id@,
            AgentEvent::ComponentUnmount { session_id, .. } => session_id@,
            AgentEvent::Extension { scope, .. } => match scope {
                Some(s) => s@,
                None => Seq::empty(),
            },
            AgentEvent::Other => Seq::empty(),
        }
    }

    /// The session that an event belongs to, where it names one.
    #[must_use]
    pub fn session_id(&self) -> (r: Option<&str>)
        ensures
            self.session_text().len() > 0 ==> (r matches Some(s) && s@ == self.session_text()),
            self.session_text().len() == 0 ==> r is None,
    {
        let session_id: &str = match self {
            AgentEvent::SessionCreated { session_id, .. } => session_id.as_str(),
            AgentEvent::TurnStarted { session_id, .. } => session_id.as_str(),
            AgentEvent::AssistantTextDelta { session_id, .. } => session_id.as_str(),
            AgentEvent::ThinkingDelta { session_id, .. } => session_id.as_str(),
            AgentEvent::ToolCallStarted { session_id, .. } => session_id.as_str(),
            AgentEvent::ToolCallChunk { session_id, .. } => session_id.as_str(),
            AgentEvent::ToolCallFinished { session_id, .. } => session_id.as_str(),
            AgentEvent::TurnFinished { session_id, .. } => session_id.as_str(),
            AgentEvent::ComponentRender { session_id, .. } => session_id.as_str(),
            AgentEvent::ComponentUnmount { session_id, .. } => session_id.as_str(),
            AgentEvent::Extension { scope, .. } => match scope {
                Some(s) => s.as_str(),
                None => return None,
            },
            AgentEvent::Other => return None,
        };
        if session_id.is_empty() {
            None
        } else {
            Some(session_id)
        }
    }
}

/// The conversation and what is being typed.
#[derive(Clone, Debug)]
pub struct AgentState {
    pub session_id: Option<String>,
    pub session_title: String,
    pub active_turn_id: Option<String>,
    pub model: Option<String>,
    pub streaming: bool,
    pub composer_text: String,
    pub turns: Vec<AgentTurn>,
    pub status: String,
    pub last_turn_tokens: Option<TokenStats>,
    pub session_tokens: TokenStats,
}

/// The conversation and what is being typed.
#[verifier::ext_equal]
pub struct AgentView {
    pub session_id: Option<Seq<char>>,
    pub session_title: Seq<char>,
    pub active_turn_id: Option<Seq<char>>,
    pub model: Option<Seq<char>>,
    pub streaming: bool,
    pub composer_text: Seq<char>,
    pub turns: Seq<TurnView>,
    pub status: Seq<char>,
    pub last_turn_tokens: Option<TokenStats>,
    pub session_tokens: TokenStats,
}

impl View for AgentState {
    type V = AgentView;

    open spec fn view(&self) -> AgentView {
        AgentView {
            session_id: opt_chars(self.session_id),
            session_title: self.session_title@,
            active_turn_id: opt_chars(self.active_turn_id),
            model: opt_chars(self.model),
            streaming: self.streaming,
            composer_text: self.composer_text@,
            turns: turn_views(self.turns@),
            status: self.status@,
            last_turn_tokens: self.last_turn_tokens,
            session_tokens: self.session_tokens,
        }
    }
}

/// The turns with one of the assistant at the end that has the id: the last one where
/// it is that, a new one otherwise.
pub open spec fn with_assistant_turn(turns: Seq<TurnView>, turn_id: Seq<char>) -> Seq<TurnView> {
    if turns.len() > 0 && turns.last().role is Assistant && turns.last().turn_id == Some(turn_id) {
        turns
    } else {
        turns.push(
            TurnView { turn_id: Some(turn_id), role: AgentRole::Assistant, blocks: Seq::empty() },
        )
    }
}

/// The turns with other blocks in the last one.
pub open spec fn with_last_blocks(turns: Seq<TurnView>, blocks: Seq<BlockView>) -> Seq<TurnView> {
    turns.update(turns.len() - 1, TurnView { blocks, ..turns.last() })
}

/// The blocks after more text came in.
pub open spec fn with_text(blocks: Seq<BlockView>, delta: Seq<char>) -> Seq<BlockView> {
    if blocks.len() > 0 && blocks.last() is Text {
        blocks.update(blocks.len() - 1, BlockView::Text(blocks.last()->Text_0 + delta))
    } else {
        blocks.push(BlockView::Text(delta))
    }
}

/// The blocks after more thinking came in.
pub open spec fn with_thinking(blocks: Seq<BlockView>, delta: Seq<char>) -> Seq<BlockView> {
    if blocks.len() > 0 && blocks.last() is Thinking {
        blocks.update(
            blocks.len() - 1,
            BlockView::Thinking(
                blocks.last()->Thinking_0 + delta,
                blocks.last()->Thinking_1,
            ),
        )
    } else {
        blocks.push(BlockView::Thinking(delta, false))
    }
}

/// Whether a block is the tool call with an id.
pub open spec fn is_tool_call(b: BlockView, call_id: Seq<char>) -> bool {
    b matches BlockView::ToolCall(t) && t.call_id == call_id
}

/// The place of the last tool call with an id.
pub open spec fn tool_at(blocks: Seq<BlockView>, call_id: Seq<char>) -> Option<int>
    decreases blocks.len(),
{
    if blocks.len() == 0 {
        None
    } else if is_tool_call(blocks.last(), call_id) {
        Some(blocks.len() - 1)
    } else {
        tool_at(blocks.drop_last(), call_id)
    }
}

/// The blocks after more output of a tool call came in.
pub open spec fn with_chunk(
    blocks: Seq<BlockView>,
    call_id: Seq<char>,
    chunk: Seq<char>,
) -> Seq<BlockView> {
    match tool_at(blocks, call_id) {
        Some(i) => blocks.update(
            i,
            BlockView::ToolCall(
                ToolCallView {
                    output: blocks[i]->ToolCall_0.output + chunk,
                    ..blocks[i]->ToolCall_0
                },
            ),
        ),
        None => blocks,
    }
}

/// The blocks after a tool call ended. The output that was streamed stands; the
/// result's own output counts where nothing was.
pub open spec fn with_result(
    blocks: Seq<BlockView>,
    call_id: Seq<char>,
    ok: bool,
    output: Seq<char>,
) -> Seq<BlockView> {
    match tool_at(blocks, call_id) {
        Some(i) => {
            let t = blocks[i]->ToolCall_0;
            blocks.update(
                i,
                BlockView::ToolCall(
                    ToolCallView {
                        output: if t.output.len() == 0 {
                            output
                        } else {
                            t.output
                        },
                        status: if ok {
                            ToolStatus::Succeeded
                        } else {
                            ToolStatus::Failed
                        },
                        ..t
                    },
                ),
            )
        },
        None => blocks,
    }
}

/// Whether a block is the component with an id.
pub open spec fn is_component(b: BlockView, id: Seq<char>) -> bool {
    b matches BlockView::Component(c, _, _) && c == id
}

/// The place of the first block from `from` on that is the component with an id.
pub open spec fn component_at(blocks: Seq<BlockView>, id: Seq<char>, from: int) -> Option<int>
    decreases blocks.len() - from,
{
    if from >= blocks.len() {
        None
    } else if is_component(blocks[from], id) {
        Some(from)
    } else {
        component_at(blocks, id, from + 1)
    }
}

/// The turns with the first component of an id from turn `from` on replaced; nothing
/// where there is none.
pub open spec fn with_component_replaced(
    turns: Seq<TurnView>,
    id: Seq<char>,
    kind: Seq<char>,
    props: JsonView,
    from: int,
) -> Option<Seq<TurnView>>
    decreases turns.len() - from,
{
    if from >= turns.len() {
        None
    } else {
        match component_at(turns[from].blocks, id, 0) {
            Some(b) => Some(
                turns.update(
                    from,
                    TurnView {
                        blocks: turns[from].blocks.update(
                            b,
                            BlockView::Component(id, kind, props),
                        ),
                        ..turns[from]
                    },
                ),
            ),
            None => with_component_replaced(turns, id, kind, props, from + 1),
        }
    }
}

/// Whether a block is anything but the component with an id.
pub open spec fn other_block(id: Seq<char>) -> spec_fn(BlockView) -> bool {
    |b: BlockView| !is_component(b, id)
}

/// A turn without the component of an id.
pub open spec fn turn_without(t: TurnView, id: Seq<char>) -> TurnView {
    TurnView { blocks: t.blocks.filter(other_block(id)), ..t }
}

/// Whether a turn has blocks.
pub open spec fn has_blocks() -> spec_fn(TurnView) -> bool {
    |t: TurnView| t.blocks.len() > 0
}

/// The turns without the component of an id; turns left without blocks go too.
pub open spec fn without_component(turns: Seq<TurnView>, id: Seq<char>) -> Seq<TurnView> {
    Seq::new(turns.len(), |i: int| turn_without(turns[i], id)).filter(has_blocks())
}

/// A number, or zero where there is none.
pub open spec fn or_zero(n: Option<u64>) -> u64 {
    match n {
        Some(k) => k,
        None => 0,
    }
}

/// The first 60 characters of the compact arguments, of `{}` where they are no JSON.
pub open spec fn preview_of(compact: Option<Seq<char>>) -> Seq<char> {
    let args = match compact {
        Some(s) => s,
        None => "{}"@,
    };
    if args.len() > 60 {
        args.take(60)
    } else {
        args
    }
}

/// The conversation after an event.
pub open spec fn after_event(v: AgentView, event: AgentEvent) -> AgentView {
    match event {
        AgentEvent::SessionCreated { title, .. } => AgentView {
            session_title: title@,
            status: "session created"@,
            ..v
        },
        AgentEvent::TurnStarted { turn_id, model, .. } => AgentView {
            active_turn_id: Some(turn_id@),
            model: match model {
                Some(m) => Some(m@),
                None => v.model,
            },
            streaming: true,
            status: "streaming"@,
            ..v
        },
        AgentEvent::AssistantTextDelta { turn_id, delta, .. } => {
            let turns = with_assistant_turn(v.turns, turn_id@);
            AgentView {
                turns: with_last_blocks(turns, with_text(turns.last().blocks, delta@)),
                ..v
            }
        },
        AgentEvent::ThinkingDelta { turn_id, delta, .. } => {
            let turns = with_assistant_turn(v.turns, turn_id@);
            AgentView {
                turns: with_last_blocks(turns, with_thinking(turns.last().blocks, delta@)),
                ..v
            }
        },
        AgentEvent::ToolCallStarted { turn_id, call, .. } => {
            let turns = with_assistant_turn(v.turns, turn_id@);
            AgentView {
                turns: with_last_blocks(
                    turns,
                    turns.last().blocks.push(
                        BlockView::ToolCall(
                            ToolCallView {
                                call_id: call.id@,
                                name: call.name@,
                                args_preview: preview_of(compact_json_text(call.args_json@)),
                                output: Seq::empty(),
                                status: ToolStatus::Running,
                                expanded: false,
                            },
                        ),
                    ),
                ),
                ..v
            }
        },
        AgentEvent::ToolCallChunk { turn_id, call_id, chunk, .. } => {
            let turns = with_assistant_turn(v.turns, turn_id@);
            AgentView {
                turns: with_last_blocks(
                    turns,
                    with_chunk(turns.last().blocks, call_id@, chunk@),
                ),
                ..v
            }
        },
        AgentEvent::ToolCallFinished { turn_id, call_id, result, .. } => {
            let turns = with_assistant_turn(v.turns, turn_id@);
            AgentView {
                turns: with_last_blocks(
                    turns,
                    with_result(turns.last().blocks, call_id@, result.ok, result.output@),
                ),
                ..v
            }
        },
        AgentEvent::TurnFinished {
            error,
            output_tokens,
            input_tokens,
            cache_read_tokens,
            tokens_per_second_bits,
            ..
        } => AgentView {
            streaming: false,
            active_turn_id: None,
            status: match error {
                Some(e) => e@,
                None => "ready"@,
            },
            last_turn_tokens: Some(
                TokenStats {
                    input: or_zero(input_tokens),
                    output: or_zero(output_tokens),
                    cache_read: or_zero(cache_read_tokens),
                    tokens_per_second_bits: or_zero(tokens_per_second_bits),
                },
            ),
            session_tokens: TokenStats {
                input: (v.session_tokens.input + or_zero(input_tokens)) as u64,
                output: (v.session_tokens.output + or_zero(output_tokens)) as u64,
                cache_read: (v.session_tokens.cache_read + or_zero(cache_read_tokens)) as u64,
                ..v.session_tokens
            },
            ..v
        },
        AgentEvent::ComponentRender { component_id, kind, props, replace, .. } => {
            let replaced = with_component_replaced(v.turns, component_id@, kind@, props@, 0);
            if replace && replaced is Some {
                AgentView { turns: replaced->0, ..v }
            } else {
                let turns = with_assistant_turn(v.turns, "component-render"@);
                AgentView {
                    turns: with_last_blocks(
                        turns,
                        turns.last().blocks.push(
                            BlockView::Component(component_id@, kind@, props@),
                        ),
                    ),
                    ..v
                }
            }
        },
        AgentEvent::ComponentUnmount { component_id, .. } => AgentView {
            turns: without_component(v.turns, component_id@),
            ..v
        },
        AgentEvent::Extension { .. } => v,
        AgentEvent::Other => v,
    }
}

/// Whether the token counts of an event still fit on top of those of the session.
pub open spec fn tokens_fit(v: AgentView, event: AgentEvent) -> bool {
    event matches AgentEvent::TurnFinished {
        output_tokens,
        input_tokens,
        cache_read_tokens,
        ..
    } ==> {
        &&& v.session_tokens.input + or_zero(input_tokens) <= u64::MAX
        &&& v.session_tokens.output + or_zero(output_tokens) <= u64::MAX
        &&& v.session_tokens.cache_read + or_zero(cache_read_tokens) <= u64::MAX
    }
}

impl Default for AgentState {
    fn default() -> (r: Self)
        ensures
            r@ == no_conversation(),
    {
        let turns: Vec<AgentTurn> = Vec::new();
        assert(turn_views(turns@) =~= Seq::empty());
        AgentState {
            session_id: None,
            session_title: String::new(),
            active_turn_id: None,
            model: None,
            streaming: false,
            composer_text: String::new(),
            turns,
            status: copy_str("disconnected"),
            last_turn_tokens: None,
            session_tokens: TokenStats::default(),
        }
    }
}

/// The conversation before anything was said.
pub open spec fn no_conversation() -> AgentView {
    AgentView {
        session_id: None,
        session_title: Seq::empty(),
        active_turn_id: None,
        model: None,
        streaming: false,
        composer_text: Seq::empty(),
        turns: Seq::empty(),
        status: "disconnected"@,
        last_turn_tokens: None,
        session_tokens: TokenStats { input: 0, output: 0, cache_read: 0, tokens_per_second_bits: 0 },
    }
}

/// The conversation with more typed.
pub open spec fn composed(v: AgentView, text: Seq<char>) -> AgentView {
    AgentView { composer_text: v.composer_text + text, ..v }
}

/// The conversation without the last character typed.
pub open spec fn shortened(v: AgentView) -> AgentView {
    AgentView {
        composer_text: if v.composer_text.len() == 0 {
            v.composer_text
        } else {
            v.composer_text.drop_last()
        },
        ..v
    }
}

/// The conversation with what is typed sent: it is a turn of the user, and the agent is
/// waited for.
pub open spec fn submitted(v: AgentView) -> AgentView {
    AgentView {
        composer_text: Seq::empty(),
        turns: v.turns.push(
            TurnView {
                turn_id: None,
                role: AgentRole::User,
                blocks: seq![BlockView::Text(trimmed(v.composer_text))],
            },
        ),
        streaming: true,
        status: "submitting"@,
        ..v
    }
}

/// The conversation after sending failed.
pub open spec fn not_posted(v: AgentView, error: Seq<char>) -> AgentView {
    AgentView { streaming: false, status: "post error: "@ + error, ..v }
}

/// The conversation with a block opened or closed, where it can be.
pub open spec fn toggled_at(v: AgentView, turn: int, block: int) -> Option<AgentView> {
    if 0 <= turn < v.turns.len() && 0 <= block < v.turns[turn].blocks.len() {
        let toggled = match v.turns[turn].blocks[block] {
            BlockView::Thinking(content, expanded) => Some(
                BlockView::Thinking(content, !expanded),
            ),
            BlockView::ToolCall(t) => Some(
                BlockView::ToolCall(ToolCallView { expanded: !t.expanded, ..t }),
            ),
            _ => None,
        };
        match toggled {
            Some(b) => Some(
                AgentView {
                    turns: v.turns.update(
                        turn,
                        TurnView { blocks: v.turns[turn].blocks.update(block, b), ..v.turns[turn] },
                    ),
                    ..v
                },
            ),
            None => None,
        }
    } else {
        None
    }
}

/// Whether what is typed can be sent: nothing is being streamed and it is not blank.
pub open spec fn submittable(v: AgentView) -> bool {
    !v.streaming && !blank(v.composer_text)
}

impl AgentState {
    /// Whether what is typed can be sent.
    #[must_use]
    pub fn can_submit(&self) -> (r: bool)
        ensures
            r == submittable(self@),
    {
        !self.streaming && !is_blank(self.composer_text.as_str())
    }

    /// Types text at the end.
    pub fn insert_composer_text(&mut self, text: &str)
        ensures
            final(self)@ == composed(old(self)@, text@),
    {
        self.composer_text.push_str(text);
    }

    /// Deletes the last character typed.
    pub fn delete_composer_backward(&mut self)
        ensures
            final(self)@ == shortened(old(self)@),
    {
        let chars = chars_of(self.composer_text.as_str());
        if chars.len() > 0 {
            assert(chars@.subrange(0, chars@.len() - 1) =~= chars@.drop_last());
            self.composer_text = string_of_range(&chars, 0, chars.len() - 1);
        }
    }

    /// Takes what is typed, without the white space around it, as a prompt: it becomes
    /// a turn of the user and the conversation waits for the agent. Nothing happens
    /// where it cannot be sent.
    #[must_use]
    pub fn take_prompt_for_submit(&mut self) -> (r: Option<String>)
        ensures
            submittable(old(self)@) ==> {
                &&& r matches Some(prompt) && prompt@ == trimmed(old(self)@.composer_text)
                &&& final(self)@ == submitted(old(self)@)
            },
            !submittable(old(self)@) ==> r is None && final(self)@ == old(self)@,
    {
        if !self.can_submit() {
            return None;
        }
        let prompt = trim(self.composer_text.as_str());
        self.composer_text = String::new();
        let ghost before = self.turns@;
        let turn = AgentTurn::user(prompt.clone());
        let ghost t = turn@;
        self.turns.push(turn);
        assert(turn_views(self.turns@) =~= turn_views(before).push(t));
        self.streaming = true;
        self.status = copy_str("submitting");
        Some(prompt)
    }

    /// Sending failed.
    pub fn mark_post_error(&mut self, error: &str)
        ensures
            final(self)@ == not_posted(old(self)@, error@),
    {
        self.streaming = false;
        self.status = concat2("post error: ", error);
    }

    /// Opens or closes a block that can be: thinking or a tool call. Tells whether it
    /// was one.
    pub fn toggle_block_expanded(&mut self, turn_index: usize, block_index: usize) -> (r: bool)
        ensures
            match toggled_at(old(self)@, turn_index as int, block_index as int) {
                Some(toggled) => r && final(self)@ == toggled,
                None => !r && final(self)@ == old(self)@,
            },
    {
        if turn_index >= self.turns.len() {
            return false;
        }
        if block_index >= self.turns[turn_index].blocks.len() {
            return false;
        }
        let ghost v = self@;
        let ghost blocks = self.turns@[turn_index as int].blocks@;
        assert(v.turns[turn_index as int].blocks[block_index as int]
            == blocks[block_index as int]@);
        let turn = &mut self.turns[turn_index];
        let toggled = toggle_block(&mut turn.blocks[block_index]);
        proof {
            let after = self.turns@[turn_index as int].blocks@;
            assert(block_views(after) =~= block_views(blocks).update(
                block_index as int,
                after[block_index as int]@,
            ));
            assert(self@.turns =~= v.turns.update(
                turn_index as int,
                TurnView {
                    blocks: block_views(after),
                    ..v.turns[turn_index as int]
                },
            ));
            if !toggled {
                assert(block_views(after) =~= v.turns[turn_index as int].blocks);
                assert(self@.turns =~= v.turns);
            }
        }
        toggled
    }

    /// Takes in an event that the daemon streamed.
    pub fn apply_event(&mut self, event: AgentEvent)
        requires
            tokens_fit(old(self)@, event),
        ensures
            final(self)@ == after_event(old(self)@, event),
    {
        let ghost v = self@;
        match event {
            AgentEvent::SessionCreated { session_id: _, title, cwd: _ } => {
                self.session_title = title;
                self.status = copy_str("session created");
            },
            AgentEvent::TurnStarted { turn_id, session_id: _, model } => {
                self.active_turn_id = Some(turn_id);
                if let Some(model) = model {
                    self.model = Some(model);
                }
                self.streaming = true;
                self.status = copy_str("streaming");
            },
            AgentEvent::AssistantTextDelta { session_id: _, turn_id, delta } => {
                let turn = ensure_assistant_turn(&mut self.turns, turn_id.as_str());
                push_text(&mut turn.blocks, delta);
            },
            AgentEvent::ThinkingDelta { session_id: _, turn_id, delta } => {
                let turn = ensure_assistant_turn(&mut self.turns, turn_id.as_str());
                push_thinking(&mut turn.blocks, delta);
            },
            AgentEvent::ToolCallStarted { session_id: _, turn_id, call } => {
                let compact = compact_json(call.args_json.as_str());
                let preview = args_preview(&compact);
                let turn = ensure_assistant_turn(&mut self.turns, turn_id.as_str());
                push_block(
                    &mut turn.blocks,
                    AgentBlock::ToolCall {
                        call_id: call.id,
                        name: call.name,
                        args_preview: preview,
                        output: String::new(),
                        status: ToolStatus::Running,
                        expanded: false,
                    },
                );
            },
            AgentEvent::ToolCallChunk { session_id: _, turn_id, call_id, chunk } => {
                let turn = ensure_assistant_turn(&mut self.turns, turn_id.as_str());
                extend_tool_output(&mut turn.blocks, call_id.as_str(), chunk.as_str());
            },
            AgentEvent::ToolCallFinished { session_id: _, turn_id, call_id, result } => {
                let turn = ensure_assistant_turn(&mut self.turns, turn_id.as_str());
                finish_tool(&mut turn.blocks, call_id.as_str(), result);
            },
            AgentEvent::TurnFinished {
                session_id: _,
                turn_id: _,
                status: _,
                error,
                wall_ms: _,
                output_tokens,
                input_tokens,
                cache_read_tokens,
                tokens_per_second_bits,
            } => {
                self.streaming = false;
                self.active_turn_id = None;
                self.status = match error {
                    Some(error) => error,
                    None => copy_str("ready"),
                };
                let stats = TokenStats {
                    input: input_tokens.unwrap_or(0),
                    output: output_tokens.unwrap_or(0),
                    cache_read: cache_read_tokens.unwrap_or(0),
                    tokens_per_second_bits: tokens_per_second_bits.unwrap_or(0),
                };
                self.last_turn_tokens = Some(stats);
                self.session_tokens = TokenStats {
                    input: self.session_tokens.input + stats.input,
                    output: self.session_tokens.output + stats.output,
                    cache_read: self.session_tokens.cache_read + stats.cache_read,
                    tokens_per_second_bits: self.session_tokens.tokens_per_second_bits,
                };
            },
            AgentEvent::ComponentRender { session_id: _, component_id, kind, props, replace } => {
                if replace && replace_component(
                    &mut self.turns,
                    component_id.as_str(),
                    kind.as_str(),
                    &props,
                ) {
                    return;
                }
                let turn = ensure_assistant_turn(&mut self.turns, "component-render");
                push_block(&mut turn.blocks, AgentBlock::Component { component_id, kind, props });
            },
            AgentEvent::ComponentUnmount { session_id: _, component_id } => {
                remove_component(&mut self.turns, component_id.as_str());
            },
            AgentEvent::Extension { extension: _, payload: _, scope: _ } => {},
            AgentEvent::Other => {},
        }
        assert(self@ =~= after_event(v, event));
    }
}

/// What is shown of a tool call's arguments: the first 60 characters of their compact
/// form, `{}` where there is none.
#[must_use]
pub fn args_preview(compact: &Option<String>) -> (r: String)
    ensures
        r@ == preview_of(opt_chars(*compact)),
{
    let args: &str = match compact {
        Some(s) => s.as_str(),
        None => "{}",
    };
    let chars = chars_of(args);
    let end: usize = if chars.len() > 60 {
        60
    } else {
        chars.len()
    };
    assert(chars@.subrange(0, end as int) =~= preview_of(opt_chars(*compact)));
    string_of_range(&chars, 0, end)
}

/// The turn of the assistant with an id, made at the end where it is not the last one.
fn ensure_assistant_turn<'a>(turns: &'a mut Vec<AgentTurn>, turn_id: &str) -> (r:
    &'a mut AgentTurn)
    ensures
        r@ == with_assistant_turn(turn_views(old(turns)@), turn_id@).last(),
        turn_views(final(turns)@) == ({
            let all = with_assistant_turn(turn_views(old(turns)@), turn_id@);
            all.update(all.len() - 1, final(r)@)
        }),
{
    let matches_last: bool = if turns.len() == 0 {
        false
    } else {
        let last = &turns[turns.len() - 1];
        assert(turn_views(turns@).last() == last@);
        last.role == AgentRole::Assistant && match &last.turn_id {
            Some(id) => str_eq(id.as_str(), turn_id),
            None => false,
        }
    };
    let ghost before = turns@;
    if !matches_last {
        let turn = AgentTurn::assistant(copy_str(turn_id));
        let ghost t = turn@;
        turns.push(turn);
        assert(turn_views(turns@) =~= turn_views(before).push(t));
    }
    let ghost all = turns@;
    let at: usize = turns.len() - 1;
    assert(turn_views(all) == with_assistant_turn(turn_views(before), turn_id@));
    assert(forall|t: AgentTurn|
        turn_views(#[trigger] all.update(at as int, t)) =~= turn_views(all).update(
            at as int,
            t@,
        ));
    &mut turns[at]
}

/// Adds a block.
fn push_block(blocks: &mut Vec<AgentBlock>, block: AgentBlock)
    ensures
        block_views(final(blocks)@) == block_views(old(blocks)@).push(block@),
{
    let ghost before = blocks@;
    blocks.push(block);
    assert(block_views(blocks@) =~= block_views(before).push(block@));
}

/// Adds text, to the last block where that is one.
fn push_text(blocks: &mut Vec<AgentBlock>, delta: String)
    ensures
        block_views(final(blocks)@) == with_text(block_views(old(blocks)@), delta@),
{
    let n: usize = blocks.len();
    let ghost before = blocks@;
    if n > 0 {
        assert(block_views(before).last() == before[n - 1]@);
        if let AgentBlock::Text(text) = &mut blocks[n - 1] {
            text.push_str(delta.as_str());
            assert(block_views(blocks@) =~= with_text(block_views(before), delta@));
            return;
        }
    }
    push_block(blocks, AgentBlock::Text(delta));
}

/// Adds thinking, to the last block where that is some.
fn push_thinking(blocks: &mut Vec<AgentBlock>, delta: String)
    ensures
        block_views(final(blocks)@) == with_thinking(block_views(old(blocks)@), delta@),
{
    let n: usize = blocks.len();
    let ghost before = blocks@;
    if n > 0 {
        assert(block_views(before).last() == before[n - 1]@);
        if let AgentBlock::Thinking { content, .. } = &mut blocks[n - 1] {
            content.push_str(delta.as_str());
            assert(block_views(blocks@) =~= with_thinking(block_views(before), delta@));
            return;
        }
    }
    push_block(blocks, AgentBlock::Thinking { content: delta, expanded: false });
}

/// The place of the last tool call with an id.
fn tool_index(blocks: &Vec<AgentBlock>, call_id: &str) -> (r: Option<usize>)
    ensures
        match r {
            Some(i) => i < blocks.len() && tool_at(block_views(blocks@), call_id@) == Some(
                i as int,
            ) && is_tool_call(blocks@[i as int]@, call_id@),
            None => tool_at(block_views(blocks@), call_id@) is None,
        },
{
    let mut i: usize = blocks.len();
    assert(block_views(blocks@).take(i as int) =~= block_views(blocks@));
    while i > 0
        invariant
            i <= blocks.len(),
            tool_at(block_views(blocks@).take(i as int), call_id@) == tool_at(
                block_views(blocks@),
                call_id@,
            ),
        decreases i,
    {
        assert(block_views(blocks@).take(i as int).drop_last() =~= block_views(blocks@).take(
            i - 1,
        ));
        i -= 1;
        if let AgentBlock::ToolCall { call_id: id, .. } = &blocks[i] {
            if str_eq(id.as_str(), call_id) {
                return Some(i);
            }
        }
    }
    None
}

/// Adds to the output of a tool call.
fn extend_tool_output(blocks: &mut Vec<AgentBlock>, call_id: &str, chunk: &str)
    ensures
        block_views(final(blocks)@) == with_chunk(block_views(old(blocks)@), call_id@, chunk@),
{
    let ghost before = blocks@;
    if let Some(i) = tool_index(blocks, call_id) {
        if let AgentBlock::ToolCall { output, .. } = &mut blocks[i] {
            output.push_str(chunk);
        }
        assert(block_views(blocks@) =~= with_chunk(block_views(before), call_id@, chunk@));
    }
}

/// Ends a tool call.
fn finish_tool(blocks: &mut Vec<AgentBlock>, call_id: &str, result: ToolResult)
    ensures
        block_views(final(blocks)@) == with_result(
            block_views(old(blocks)@),
            call_id@,
            result.ok,
            result.output@,
        ),
{
    let ghost before = blocks@;
    if let Some(i) = tool_index(blocks, call_id) {
        if let AgentBlock::ToolCall { output, status, .. } = &mut blocks[i] {
            let ghost shown = output@;
            assert(shown.len() == 0 ==> shown + result.output@ =~= result.output@);
            assert(shown.len() == 0 && result.output@.len() == 0 ==> shown =~= result.output@);
            if output.is_empty() && !result.output.is_empty() {
                output.push_str(result.output.as_str());
            }
            *status = if result.ok {
                ToolStatus::Succeeded
            } else {
                ToolStatus::Failed
            };
        }
        assert(block_views(blocks@) =~= with_result(
            block_views(before),
            call_id@,
            result.ok,
            result.output@,
        ));
    }
}

/// The place of the first component with an id.
fn component_index(blocks: &Vec<AgentBlock>, id: &str) -> (r: Option<usize>)
    ensures
        match r {
            Some(i) => i < blocks.len() && component_at(block_views(blocks@), id@, 0) == Some(
                i as int,
            ),
            None => component_at(block_views(blocks@), id@, 0) is None,
        },
{
    let mut i: usize = 0;
    while i < blocks.len()
        invariant
            i <= blocks.len(),
            component_at(block_views(blocks@), id@, i as int) == component_at(
                block_views(blocks@),
                id@,
                0,
            ),
        decreases blocks.len() - i,
    {
        if let AgentBlock::Component { component_id, .. } = &blocks[i] {
            if str_eq(component_id.as_str(), id) {
                return Some(i);
            }
        }
        i += 1;
    }
    None
}

/// Replaces the first component with an id. Tells whether there was one.
fn replace_component(turns: &mut Vec<AgentTurn>, id: &str, kind: &str, props: &Json) -> (r: bool)
    ensures
        match with_component_replaced(turn_views(old(turns)@), id@, kind@, props@, 0) {
            Some(after) => r && turn_views(final(turns)@) == after,
            None => !r && final(turns)@ == old(turns)@,
        },
{
    let ghost before = turns@;
    let mut t: usize = 0;
    while t < turns.len()
        invariant
            t <= turns.len(),
            before == old(turns)@,
            turns@ == before,
            with_component_replaced(turn_views(before), id@, kind@, props@, t as int)
                == with_component_replaced(turn_views(before), id@, kind@, props@, 0),
        decreases turns.len() - t,
    {
        assert(turn_views(before)[t as int].blocks == block_views(before[t as int].blocks@));
        if let Some(b) = component_index(&turns[t].blocks, id) {
            let ghost blocks = turns@[t as int].blocks@;
            let block = AgentBlock::Component {
                component_id: copy_str(id),
                kind: copy_str(kind),
                props: props.clone(),
            };
            let ghost new_block = block@;
            assert(new_block == BlockView::Component(id@, kind@, props@));
            let turn = &mut turns[t];
            turn.blocks[b] = block;
            proof {
                let after = turns@[t as int].blocks@;
                assert(block_views(after) =~= block_views(blocks).update(b as int, new_block));
                assert(turn_views(turns@) =~= turn_views(before).update(
                    t as int,
                    TurnView {
                        blocks: block_views(after),
                        ..turn_views(before)[t as int]
                    },
                ));
            }
            return true;
        }
        t += 1;
    }
    false
}

/// The blocks that are not the component with an id.
fn blocks_without(blocks: Vec<AgentBlock>, id: &str) -> (r: Vec<AgentBlock>)
    ensures
        block_views(r@) == block_views(blocks@).filter(other_block(id@)),
{
    let ghost all = blocks@;
    let mut kept: Vec<AgentBlock> = Vec::new();
    assert(block_views(kept@) =~= block_views(all).take(0).filter(other_block(id@))) by {
        reveal(Seq::filter);
    }
    for block in it: blocks
        invariant
            it.seq() == all,
            block_views(kept@) == block_views(all).take(it.index() as int).filter(
                other_block(id@),
            ),
    {
        let ghost i = it.index() as int;
        let ghost was = kept@;
        proof {
            lemma_filter_step(block_views(all), i, other_block(id@));
        }
        let drop_it: bool = match &block {
            AgentBlock::Component { component_id, .. } => str_eq(component_id.as_str(), id),
            _ => false,
        };
        if !drop_it {
            kept.push(block);
            assert(block_views(kept@) =~= block_views(was).push(block_views(all)[i]));
        }
    }
    assert(block_views(all).take(all.len() as int) =~= block_views(all));
    kept
}

/// Removes the component with an id, and the turns that are left without blocks.
fn remove_component(turns: &mut Vec<AgentTurn>, id: &str)
    ensures
        turn_views(final(turns)@) == without_component(turn_views(old(turns)@), id@),
{
    let mut old_turns: Vec<AgentTurn> = Vec::new();
    core::mem::swap(turns, &mut old_turns);
    let ghost all = old_turns@;
    let ghost mapped = Seq::new(
        turn_views(all).len(),
        |i: int| turn_without(turn_views(all)[i], id@),
    );
    let mut kept: Vec<AgentTurn> = Vec::new();
    assert(turn_views(kept@) =~= mapped.take(0).filter(has_blocks())) by {
        reveal(Seq::filter);
    }
    for turn in it: old_turns
        invariant
            it.seq() == all,
            mapped == Seq::new(
                turn_views(all).len(),
                |i: int| turn_without(turn_views(all)[i], id@),
            ),
            turn_views(kept@) == mapped.take(it.index() as int).filter(has_blocks()),
    {
        let ghost i = it.index() as int;
        let ghost was = kept@;
        proof {
            lemma_filter_step(mapped, i, has_blocks());
        }
        let turn = AgentTurn {
            turn_id: turn.turn_id,
            role: turn.role,
            blocks: blocks_without(turn.blocks, id),
        };
        assert(turn@ == mapped[i]);
        if turn.blocks.len() > 0 {
            kept.push(turn);
            assert(turn_views(kept@) =~= turn_views(was).push(mapped[i]));
        }
    }
    assert(mapped.take(all.len() as int) =~= mapped);
    *turns = kept;
}

fn toggle_block(block: &mut AgentBlock) -> (r: bool)
    ensures
        match old(block)@ {
            BlockView::Thinking(content, expanded) => r && final(block)@ == BlockView::Thinking(
                content,
                !expanded,
            ),
            BlockView::ToolCall(t) => r && final(block)@ == BlockView::ToolCall(
                ToolCallView { expanded: !t.expanded, ..t },
            ),
            _ => !r && *final(block) == *old(block),
        },
{
    match block {
        AgentBlock::Thinking { expanded, .. } => {
            *expanded = !*expanded;
            true
        },
        AgentBlock::ToolCall { expanded, .. } => {
            *expanded = !*expanded;
            true
        },
        AgentBlock::Text(_) => false,
        AgentBlock::Component { .. } => false,
    }
}


/// Text may come in any number of pieces: two pieces one after the other leave the
/// blocks that one piece holding both leaves.
pub proof fn law_text_pieces_join(blocks: Seq<BlockView>, first: Seq<char>, second: Seq<char>)
    ensures
        with_text(with_text(blocks, first), second) == with_text(blocks, first + second),
{
    let once = with_text(blocks, first);
    assert(once.last() is Text);
    assert(once.len() > 0);
    if blocks.len() > 0 && blocks.last() is Text {
        assert(blocks.last()->Text_0 + first + second =~= blocks.last()->Text_0 + (first
            + second));
    }
    assert(with_text(once, second) =~= with_text(blocks, first + second));
}

/// Thinking may come in any number of pieces too.
pub proof fn law_thinking_pieces_join(blocks: Seq<BlockView>, first: Seq<char>, second: Seq<char>)
    ensures
        with_thinking(with_thinking(blocks, first), second) == with_thinking(
            blocks,
            first + second,
        ),
{
    let once = with_thinking(blocks, first);
    assert(once.last() is Thinking);
    assert(once.len() > 0);
    if blocks.len() > 0 && blocks.last() is Thinking {
        assert(blocks.last()->Thinking_0 + first + second =~= blocks.last()->Thinking_0 + (first
            + second));
    }
    assert(with_thinking(once, second) =~= with_thinking(blocks, first + second));
}

/// After a component is unmounted no turn shows it, and no turn is empty.
pub proof fn law_unmounted_component_is_gone(turns: Seq<TurnView>, id: Seq<char>)
    ensures
        forall|t: int, b: int|
            0 <= t < without_component(turns, id).len() && 0 <= b < without_component(
                turns,
                id,
            )[t].blocks.len() ==> !is_component(
                #[trigger] without_component(turns, id)[t].blocks[b],
                id,
            ),
        forall|t: int|
            0 <= t < without_component(turns, id).len() ==> (
            #[trigger] without_component(turns, id)[t]).blocks.len() > 0,
{
    let mapped = Seq::new(turns.len(), |i: int| turn_without(turns[i], id));
    let left = without_component(turns, id);
    assert forall|t: int| 0 <= t < left.len() implies (#[trigger] left[t]).blocks.len() > 0
        && mapped.contains(left[t]) by {
        lemma_filter_from(mapped, has_blocks(), t);
    }
    assert forall|t: int, b: int|
        0 <= t < left.len() && 0 <= b < left[t].blocks.len() implies !is_component(
        #[trigger] left[t].blocks[b],
        id,
    ) by {
        assert(mapped.contains(left[t]));
        let i = choose|i: int| 0 <= i < mapped.len() && mapped[i] == left[t];
        assert(left[t].blocks == turns[i].blocks.filter(other_block(id)));
        lemma_filter_from(turns[i].blocks, other_block(id), b);
    }
}

/// What streams in changes the last turn or adds one: all earlier turns stay.
pub proof fn law_streaming_keeps_earlier_turns(v: AgentView, event: AgentEvent, t: int)
    requires
        event is AssistantTextDelta || event is ThinkingDelta || event is ToolCallStarted
            || event is ToolCallChunk || event is ToolCallFinished,
        0 <= t < v.turns.len() - 1,
    ensures
        after_event(v, event).turns.len() >= v.turns.len(),
        after_event(v, event).turns[t] == v.turns[t],
{
}

proof fn lemma_tool_at(blocks: Seq<BlockView>, call_id: Seq<char>, b: int)
    requires
        0 <= b < blocks.len(),
        blocks[b] matches BlockView::ToolCall(t) && t.call_id == call_id,
        forall|k: int| b < k < blocks.len() ==> !is_tool_call(#[trigger] blocks[k], call_id),
    ensures
        tool_at(blocks, call_id) == Some(b),
    decreases blocks.len(),
{
    if b < blocks.len() - 1 {
        assert(!is_tool_call(blocks[blocks.len() - 1], call_id));
        let front = blocks.drop_last();
        assert forall|k: int| b < k < front.len() implies !is_tool_call(
            #[trigger] front[k],
            call_id,
        ) by {
            assert(front[k] == blocks[k]);
        }
        lemma_tool_at(front, call_id, b);
    }
}

/// Whether the turn that is being streamed is the assistant's with an id, and its last tool
/// call with an id is a block of it.
pub open spec fn is_running_call(v: AgentView, turn_id: Seq<char>, call_id: Seq<char>, b: int) -> bool {
    &&& v.turns.len() > 0
    &&& v.turns.last().role is Assistant
    &&& v.turns.last().turn_id == Some(turn_id)
    &&& 0 <= b < v.turns.last().blocks.len()
    &&& v.turns.last().blocks[b] matches BlockView::ToolCall(t) && t.call_id == call_id
    &&& forall|k: int|
        b < k < v.turns.last().blocks.len() ==> !(#[trigger] v.turns.last().blocks[k] matches
            BlockView::ToolCall(t) && t.call_id == call_id)
}

/// A tool call that ended well is shown as one that did, and one that failed as one that
/// failed. What it put out while it ran stands; where it put out nothing, the result's output
/// does. Nothing else of the turn changes.
pub proof fn law_tool_shows_how_it_ended(
    v: AgentView,
    session_id: String,
    turn_id: String,
    call_id: String,
    result: ToolResult,
    b: int,
)
    requires
        is_running_call(v, turn_id@, call_id@, b),
    ensures
        ({
            let after = after_event(
                v,
                (AgentEvent::ToolCallFinished { session_id, turn_id, call_id, result }),
            );
            let was = v.turns.last().blocks[b]->ToolCall_0;
            let is = after.turns.last().blocks[b]->ToolCall_0;
            &&& after.turns.len() == v.turns.len()
            &&& after.turns.last().blocks.len() == v.turns.last().blocks.len()
            &&& after.turns.last().blocks[b] is ToolCall
            &&& is.status is Succeeded <==> result.ok
            &&& is.status is Failed <==> !result.ok
            &&& was.output.len() > 0 ==> is.output == was.output
            &&& was.output.len() == 0 ==> is.output == result.output@
            &&& is.call_id == was.call_id
            &&& is.name == was.name
            &&& is.args_preview == was.args_preview
            &&& is.expanded == was.expanded
            &&& forall|k: int|
                0 <= k < v.turns.last().blocks.len() && k != b
                    ==> #[trigger] after.turns.last().blocks[k] == v.turns.last().blocks[k]
        }),
{
    lemma_tool_at(v.turns.last().blocks, call_id@, b);
}

/// What a tool call puts out is joined to what it put out before; it stays as it is
/// otherwise, and so does the rest of the turn.
pub proof fn law_tool_output_joins(
    v: AgentView,
    session_id: String,
    turn_id: String,
    call_id: String,
    chunk: String,
    b: int,
)
    requires
        is_running_call(v, turn_id@, call_id@, b),
    ensures
        ({
            let after = after_event(
                v,
                (AgentEvent::ToolCallChunk { session_id, turn_id, call_id, chunk }),
            );
            let was = v.turns.last().blocks[b]->ToolCall_0;
            let is = after.turns.last().blocks[b]->ToolCall_0;
            &&& after.turns.len() == v.turns.len()
            &&& after.turns.last().blocks.len() == v.turns.last().blocks.len()
            &&& after.turns.last().blocks[b] is ToolCall
            &&& is.output == was.output + chunk@
            &&& is.status == was.status
            &&& is.call_id == was.call_id
            &&& is.name == was.name
            &&& is.args_preview == was.args_preview
            &&& is.expanded == was.expanded
            &&& forall|k: int|
                0 <= k < v.turns.last().blocks.len() && k != b
                    ==> #[trigger] after.turns.last().blocks[k] == v.turns.last().blocks[k]
        }),
{
    lemma_tool_at(v.turns.last().blocks, call_id@, b);
}

/// A tool call that starts is the last block of its turn: under its id and name, running,
/// closed and without output. All blocks before it stay.
pub proof fn law_started_tool_runs(
    v: AgentView,
    session_id: String,
    turn_id: String,
    call: ToolCallSummary,
)
    ensures
        ({
            let after = after_event(
                v,
                (AgentEvent::ToolCallStarted { session_id, turn_id, call }),
            );
            let turn = after.turns.last();
            let same = v.turns.len() > 0 && v.turns.last().role is Assistant
                && v.turns.last().turn_id == Some(turn_id@);
            &&& turn.role is Assistant
            &&& turn.turn_id == Some(turn_id@)
            &&& turn.blocks.len() > 0
            &&& turn.blocks.last() is ToolCall
            &&& turn.blocks.last()->ToolCall_0.call_id == call.id@
            &&& turn.blocks.last()->ToolCall_0.name == call.name@
            &&& turn.blocks.last()->ToolCall_0.status is Running
            &&& turn.blocks.last()->ToolCall_0.output.len() == 0
            &&& !turn.blocks.last()->ToolCall_0.expanded
            &&& same ==> after.turns.drop_last() == v.turns.drop_last()
                && turn.blocks.drop_last() == v.turns.last().blocks
            &&& !same ==> after.turns.drop_last() == v.turns && turn.blocks.len() == 1
        }),
{
    let after = after_event(v, AgentEvent::ToolCallStarted { session_id, turn_id, call });
    assert(after.turns.last().blocks.drop_last() =~= with_assistant_turn(
        v.turns,
        turn_id@,
    ).last().blocks);
    assert(after.turns.drop_last() =~= with_assistant_turn(v.turns, turn_id@).drop_last());
    if !(v.turns.len() > 0 && v.turns.last().role is Assistant && v.turns.last().turn_id == Some(
        turn_id@,
    )) {
        assert(with_assistant_turn(v.turns, turn_id@).drop_last() =~= v.turns);
    }
}

/// The arguments of a call are shown from their start: all of them where they are short, and
/// no more than sixty characters of them.
pub proof fn law_preview_is_a_start(compact: Seq<char>)
    ensures
        preview_of(Some(compact)).is_prefix_of(compact),
        compact.len() <= 60 ==> preview_of(Some(compact)) == compact,
        compact.len() > 60 ==> preview_of(Some(compact)).len() == 60,
        preview_of(None) == "{}"@,
{
    reveal_strlit("{}");
}

/// Text that streams in stands at the end of the turn it belongs to: joined to the text that
/// the turn ends in, a block of its own otherwise. Nothing before it changes.
pub proof fn law_streamed_text_stands_last(
    v: AgentView,
    session_id: String,
    turn_id: String,
    delta: String,
)
    ensures
        ({
            let after = after_event(
                v,
                (AgentEvent::AssistantTextDelta { session_id, turn_id, delta }),
            );
            let turn = after.turns.last();
            let same = v.turns.len() > 0 && v.turns.last().role is Assistant
                && v.turns.last().turn_id == Some(turn_id@);
            let joins = same && v.turns.last().blocks.len() > 0
                && v.turns.last().blocks.last() is Text;
            &&& turn.role is Assistant
            &&& turn.turn_id == Some(turn_id@)
            &&& turn.blocks.len() > 0
            &&& joins ==> turn.blocks.last() == BlockView::Text(
                v.turns.last().blocks.last()->Text_0 + delta@,
            ) && turn.blocks.drop_last() == v.turns.last().blocks.drop_last()
            &&& !joins ==> turn.blocks.last() == BlockView::Text(delta@)
            &&& same && !joins ==> turn.blocks.drop_last() == v.turns.last().blocks
            &&& same ==> after.turns.drop_last() == v.turns.drop_last()
            &&& !same ==> after.turns.drop_last() == v.turns && turn.blocks.len() == 1
        }),
{
    let after = after_event(v, AgentEvent::AssistantTextDelta { session_id, turn_id, delta });
    let turns = with_assistant_turn(v.turns, turn_id@);
    assert(after.turns.drop_last() =~= turns.drop_last());
    assert(turns.push(turns.last()).drop_last() =~= turns);
    let blocks = turns.last().blocks;
    if blocks.len() > 0 && blocks.last() is Text {
        assert(after.turns.last().blocks.drop_last() =~= blocks.drop_last());
    } else {
        assert(after.turns.last().blocks.drop_last() =~= blocks);
    }
    if !(v.turns.len() > 0 && v.turns.last().role is Assistant && v.turns.last().turn_id == Some(
        turn_id@,
    )) {
        assert(turns.drop_last() =~= v.turns);
    }
}

/// Thinking that streams in stands at the end of the turn it belongs to in the same way; a
/// new block of it is closed, and one that is open stays open.
pub proof fn law_streamed_thinking_stands_last(
    v: AgentView,
    session_id: String,
    turn_id: String,
    delta: String,
)
    ensures
        ({
            let after = after_event(
                v,
                (AgentEvent::ThinkingDelta { session_id, turn_id, delta }),
            );
            let turn = after.turns.last();
            let same = v.turns.len() > 0 && v.turns.last().role is Assistant
                && v.turns.last().turn_id == Some(turn_id@);
            let joins = same && v.turns.last().blocks.len() > 0
                && v.turns.last().blocks.last() is Thinking;
            &&& turn.role is Assistant
            &&& turn.turn_id == Some(turn_id@)
            &&& turn.blocks.len() > 0
            &&& joins ==> turn.blocks.last() == BlockView::Thinking(
                v.turns.last().blocks.last()->Thinking_0 + delta@,
                v.turns.last().blocks.last()->Thinking_1,
            ) && turn.blocks.drop_last() == v.turns.last().blocks.drop_last()
            &&& !joins ==> turn.blocks.last() == BlockView::Thinking(delta@, false)
            &&& same && !joins ==> turn.blocks.drop_last() == v.turns.last().blocks
            &&& same ==> after.turns.drop_last() == v.turns.drop_last()
            &&& !same ==> after.turns.drop_last() == v.turns && turn.blocks.len() == 1
        }),
{
    let after = after_event(v, AgentEvent::ThinkingDelta { session_id, turn_id, delta });
    let turns = with_assistant_turn(v.turns, turn_id@);
    assert(after.turns.drop_last() =~= turns.drop_last());
    let blocks = turns.last().blocks;
    if blocks.len() > 0 && blocks.last() is Thinking {
        assert(after.turns.last().blocks.drop_last() =~= blocks.drop_last());
    } else {
        assert(after.turns.last().blocks.drop_last() =~= blocks);
    }
    if !(v.turns.len() > 0 && v.turns.last().role is Assistant && v.turns.last().turn_id == Some(
        turn_id@,
    )) {
        assert(turns.drop_last() =~= v.turns);
    }
}

/// A turn that starts is the active one, and the conversation streams; it tells its model
/// where it has one.
pub proof fn law_started_turn_is_active(
    v: AgentView,
    turn_id: String,
    session_id: String,
    model: Option<String>,
)
    ensures
        ({
            let after = after_event(v, (AgentEvent::TurnStarted { turn_id, session_id, model }));
            &&& after.active_turn_id == Some(turn_id@)
            &&& after.streaming
            &&& model matches Some(m) ==> after.model == Some(m@)
            &&& model is None ==> after.model == v.model
            &&& after.turns == v.turns
            &&& after.composer_text == v.composer_text
            &&& after.session_tokens == v.session_tokens
        }),
{
}

/// A turn that ends leaves none active and nothing streaming, so that the next prompt can be
/// sent; its error is told where it has one, and its tokens are added to the session's.
pub proof fn law_finished_turn_is_counted(v: AgentView, event: AgentEvent)
    requires
        event is TurnFinished,
        tokens_fit(v, event),
    ensures
        ({
            let after = after_event(v, event);
            &&& !after.streaming
            &&& after.active_turn_id is None
            &&& event->TurnFinished_error matches Some(error) ==> after.status == error@
            &&& event->TurnFinished_error is None ==> after.status == "ready"@
            &&& after.turns == v.turns
            &&& after.composer_text == v.composer_text
            &&& !blank(v.composer_text) ==> submittable(after)
            &&& after.last_turn_tokens is Some
            &&& event->TurnFinished_input_tokens matches Some(n)
                ==> after.last_turn_tokens->0.input == n && after.session_tokens.input
                == v.session_tokens.input + n
            &&& event->TurnFinished_output_tokens matches Some(n)
                ==> after.last_turn_tokens->0.output == n && after.session_tokens.output
                == v.session_tokens.output + n
            &&& event->TurnFinished_cache_read_tokens matches Some(n)
                ==> after.last_turn_tokens->0.cache_read == n && after.session_tokens.cache_read
                == v.session_tokens.cache_read + n
            &&& event->TurnFinished_tokens_per_second_bits matches Some(n)
                ==> after.last_turn_tokens->0.tokens_per_second_bits == n
            &&& event->TurnFinished_input_tokens is None ==> after.last_turn_tokens->0.input == 0
                && after.session_tokens.input == v.session_tokens.input
            &&& event->TurnFinished_output_tokens is None ==> after.last_turn_tokens->0.output == 0
                && after.session_tokens.output == v.session_tokens.output
            &&& event->TurnFinished_cache_read_tokens is None
                ==> after.last_turn_tokens->0.cache_read == 0 && after.session_tokens.cache_read
                == v.session_tokens.cache_read
        }),
{
}

/// A session that is made gives the conversation its title; what an event does not speak of
/// stays.
pub proof fn law_created_session_gives_its_title(
    v: AgentView,
    session_id: String,
    title: String,
    cwd: String,
)
    ensures
        ({
            let after = after_event(v, (AgentEvent::SessionCreated { session_id, title, cwd }));
            &&& after.session_title == title@
            &&& after.turns == v.turns
            &&& after.streaming == v.streaming
            &&& after.composer_text == v.composer_text
            &&& after.active_turn_id == v.active_turn_id
        }),
{
}

/// Events of extensions and unknown events change nothing.
pub proof fn law_unknown_events_change_nothing(v: AgentView, event: AgentEvent)
    requires
        event is Extension || event is Other,
    ensures
        after_event(v, event) == v,
{
}

/// What streams in touches the turns alone.
pub proof fn law_streaming_touches_turns_alone(v: AgentView, event: AgentEvent)
    requires
        event is AssistantTextDelta || event is ThinkingDelta || event is ToolCallStarted
            || event is ToolCallChunk || event is ToolCallFinished || event is ComponentRender
            || event is ComponentUnmount,
    ensures
        after_event(v, event) == (AgentView { turns: after_event(v, event).turns, ..v }),
{
}

proof fn lemma_component_at(blocks: Seq<BlockView>, id: Seq<char>, from: int)
    requires
        0 <= from,
    ensures
        match component_at(blocks, id, from) {
            Some(b) => from <= b < blocks.len() && is_component(blocks[b], id),
            None => forall|k: int|
                from <= k < blocks.len() ==> !is_component(#[trigger] blocks[k], id),
        },
    decreases blocks.len() - from,
{
    if from < blocks.len() && !is_component(blocks[from], id) {
        lemma_component_at(blocks, id, from + 1);
    }
}

proof fn lemma_replaced(
    turns: Seq<TurnView>,
    id: Seq<char>,
    kind: Seq<char>,
    props: JsonView,
    from: int,
)
    requires
        0 <= from,
    ensures
        match with_component_replaced(turns, id, kind, props, from) {
            Some(after) => after.len() == turns.len() && exists|t: int, b: int|
                from <= t < turns.len() && 0 <= b < turns[t].blocks.len() && shows(
                    #[trigger] after[t].blocks[b],
                    id,
                    kind,
                    props,
                ) && is_component(turns[t].blocks[b], id) && after == turns.update(
                    t,
                    TurnView {
                        blocks: turns[t].blocks.update(b, after[t].blocks[b]),
                        ..turns[t]
                    },
                ),
            None => forall|t: int, b: int|
                from <= t < turns.len() && 0 <= b < turns[t].blocks.len() ==> !is_component(
                    #[trigger] turns[t].blocks[b],
                    id,
                ),
        },
    decreases turns.len() - from,
{
    if from < turns.len() {
        lemma_component_at(turns[from].blocks, id, 0);
        match component_at(turns[from].blocks, id, 0) {
            Some(b) => {
                let after = with_component_replaced(turns, id, kind, props, from)->0;
                assert(shows(after[from].blocks[b], id, kind, props));
            },
            None => {
                lemma_replaced(turns, id, kind, props, from + 1);
            },
        }
    }
}

/// Whether a block shows a component of a kind with its properties.
pub open spec fn shows(b: BlockView, id: Seq<char>, kind: Seq<char>, props: JsonView) -> bool {
    b matches BlockView::Component(c, k, p) && c == id && k == kind && p == props
}

/// Whether a block shows a component.
pub open spec fn stands_for(b: BlockView, id: Seq<char>) -> bool {
    b matches BlockView::Component(c, _, _) && c == id
}

/// A component that is rendered is shown, of the kind and with the properties that it came
/// with. Where it replaces one that is shown, it takes that one's place and nothing else
/// changes; otherwise it is the last block of the conversation.
pub proof fn law_rendered_component_shows(
    v: AgentView,
    session_id: String,
    component_id: String,
    kind: String,
    props: Json,
    replace: bool,
)
    ensures
        ({
            let after = after_event(
                v,
                (AgentEvent::ComponentRender { session_id, component_id, kind, props, replace }),
            );
            let known = exists|t: int, b: int|
                0 <= t < v.turns.len() && 0 <= b < v.turns[t].blocks.len() && stands_for(
                    #[trigger] v.turns[t].blocks[b],
                    component_id@,
                );
            &&& replace && known ==> after.turns.len() == v.turns.len() && exists|
                t: int,
                b: int,
            |
                0 <= t < v.turns.len() && 0 <= b < v.turns[t].blocks.len() && shows(
                    #[trigger] after.turns[t].blocks[b],
                    component_id@,
                    kind@,
                    props@,
                ) && stands_for(v.turns[t].blocks[b], component_id@) && after.turns
                    == v.turns.update(
                    t,
                    TurnView {
                        blocks: v.turns[t].blocks.update(b, after.turns[t].blocks[b]),
                        ..v.turns[t]
                    },
                )
            &&& !(replace && known) ==> after.turns.len() > 0 && after.turns.last().blocks.len()
                > 0 && shows(after.turns.last().blocks.last(), component_id@, kind@, props@)
                && after.turns.last().role is Assistant
        }),
{
    lemma_replaced(v.turns, component_id@, kind@, props@, 0);
    let after = after_event(
        v,
        AgentEvent::ComponentRender { session_id, component_id, kind, props, replace },
    );
    if replace {
        if let Some(turns) = with_component_replaced(v.turns, component_id@, kind@, props@, 0) {
            let (t, b) = choose|t: int, b: int|
                0 <= t < v.turns.len() && 0 <= b < v.turns[t].blocks.len() && shows(
                    #[trigger] turns[t].blocks[b],
                    component_id@,
                    kind@,
                    props@,
                ) && stands_for(v.turns[t].blocks[b], component_id@) && turns
                    == v.turns.update(
                    t,
                    TurnView {
                        blocks: v.turns[t].blocks.update(b, turns[t].blocks[b]),
                        ..v.turns[t]
                    },
                );
            assert(stands_for(v.turns[t].blocks[b], component_id@));
            assert(after.turns == turns);
            assert(shows(after.turns[t].blocks[b], component_id@, kind@, props@));
        }
    }
}

/// Unmounting a component takes nothing else away: every other block is still there, in a
/// turn of the same id and role.
pub proof fn law_unmount_keeps_the_rest(turns: Seq<TurnView>, id: Seq<char>, t: int, b: int)
    requires
        0 <= t < turns.len(),
        0 <= b < turns[t].blocks.len(),
        !stands_for(turns[t].blocks[b], id),
    ensures
        exists|k: int|
            0 <= k < without_component(turns, id).len() && {
                let left = #[trigger] without_component(turns, id)[k];
                left.turn_id == turns[t].turn_id && left.role == turns[t].role
                    && left.blocks.contains(turns[t].blocks[b])
            },
{
    let mapped = Seq::new(turns.len(), |i: int| turn_without(turns[i], id));
    let left = without_component(turns, id);
    lemma_filter_to(turns[t].blocks, other_block(id), b);
    assert(mapped[t].blocks.contains(turns[t].blocks[b]));
    assert(mapped[t].blocks.len() > 0);
    lemma_filter_to(mapped, has_blocks(), t);
    let k = choose|k: int| 0 <= k < left.len() && left[k] == mapped[t];
    assert(left[k].blocks.contains(turns[t].blocks[b]));
}

/// An event that unmounts a component leaves no block that shows it, and every other block
/// where it stood: in a turn of the same id and role.
pub proof fn law_unmount_event_takes_one_component_away(
    v: AgentView,
    session_id: String,
    component_id: String,
    t: int,
    b: int,
)
    ensures
        ({
            let after = after_event(
                v,
                (AgentEvent::ComponentUnmount { session_id, component_id }),
            ).turns;
            &&& 0 <= t < after.len() && 0 <= b < after[t].blocks.len() ==> !stands_for(
                after[t].blocks[b],
                component_id@,
            )
            &&& 0 <= t < v.turns.len() && 0 <= b < v.turns[t].blocks.len() && !stands_for(
                v.turns[t].blocks[b],
                component_id@,
            ) ==> exists|k: int|
                0 <= k < after.len() && {
                    let left = #[trigger] after[k];
                    left.turn_id == v.turns[t].turn_id && left.role == v.turns[t].role
                        && left.blocks.contains(v.turns[t].blocks[b])
                }
        }),
{
    law_unmounted_component_is_gone(v.turns, component_id@);
    let after = after_event(
        v,
        (AgentEvent::ComponentUnmount { session_id, component_id }),
    ).turns;
    if 0 <= t < after.len() && 0 <= b < after[t].blocks.len() {
        assert(!is_component(without_component(v.turns, component_id@)[t].blocks[b], component_id@));
    }
    if 0 <= t < v.turns.len() && 0 <= b < v.turns[t].blocks.len() && !stands_for(
        v.turns[t].blocks[b],
        component_id@,
    ) {
        law_unmount_keeps_the_rest(v.turns, component_id@, t, b);
    }
}

/// A character that is typed and deleted again leaves the prompt as it was.
pub proof fn law_deleting_takes_the_last_character_back(v: AgentView, c: char)
    ensures
        shortened(composed(v, seq![c])) == v,
        composed(v, seq![c]).composer_text == v.composer_text.push(c),
{
    assert(v.composer_text + seq![c] =~= v.composer_text.push(c));
    assert(v.composer_text.push(c).drop_last() =~= v.composer_text);
    assert(shortened(composed(v, seq![c])) =~= v);
}

/// What is typed in two goes is typed as in one; deleting from an empty prompt changes
/// nothing.
pub proof fn law_typing_adds_up(v: AgentView, first: Seq<char>, second: Seq<char>)
    ensures
        composed(composed(v, first), second) == composed(v, first + second),
        v.composer_text.len() == 0 ==> shortened(v) == v,
        v.composer_text.len() > 0 ==> shortened(v).composer_text.len() == v.composer_text.len() - 1,
{
    assert(v.composer_text + first + second =~= v.composer_text + (first + second));
}

/// A prompt that is sent is the user's last word, the typing starts anew, and nothing more
/// can be sent until the agent has answered or sending failed. What was said before stays.
pub proof fn law_sent_prompt_is_the_users_word(v: AgentView, error: Seq<char>)
    requires
        submittable(v),
    ensures
        ({
            let sent = submitted(v);
            &&& sent.turns.len() == v.turns.len() + 1
            &&& sent.turns.drop_last() == v.turns
            &&& sent.turns.last().role is User
            &&& sent.turns.last().blocks.len() == 1
            &&& sent.turns.last().blocks[0] == BlockView::Text(trimmed(v.composer_text))
            &&& trimmed(v.composer_text).len() > 0
            &&& sent.composer_text.len() == 0
            &&& sent.streaming
            &&& sent.status == "submitting"@
            &&& !submittable(sent)
            &&& !not_posted(sent, error).streaming
            &&& not_posted(sent, error).turns == sent.turns
            &&& not_posted(sent, error).status == "post error: "@ + error
        }),
{
    let sent = submitted(v);
    assert(sent.turns.drop_last() =~= v.turns);
    law_trimming_takes_white_space_alone(v.composer_text);
}

/// Opening or closing a block twice leaves it as it was, and once changes nothing else.
pub proof fn law_toggling_twice_changes_nothing(v: AgentView, turn: int, block: int)
    ensures
        match toggled_at(v, turn, block) {
            Some(once) => {
                &&& toggled_at(once, turn, block) == Some(v)
                &&& once != v
                &&& once.turns.len() == v.turns.len()
                &&& once.turns[turn].blocks.len() == v.turns[turn].blocks.len()
                &&& forall|t: int|
                    0 <= t < v.turns.len() && t != turn ==> #[trigger] once.turns[t] == v.turns[t]
                &&& forall|b: int|
                    0 <= b < v.turns[turn].blocks.len() && b != block
                        ==> #[trigger] once.turns[turn].blocks[b] == v.turns[turn].blocks[b]
                &&& v.turns[turn].blocks[block] is Thinking || v.turns[turn].blocks[block] is ToolCall
            },
            None => !(0 <= turn < v.turns.len() && 0 <= block < v.turns[turn].blocks.len() && (
            v.turns[turn].blocks[block] is Thinking || v.turns[turn].blocks[block] is ToolCall)),
        },
{
    if let Some(once) = toggled_at(v, turn, block) {
        let twice = toggled_at(once, turn, block)->0;
        assert(once.turns[turn].blocks[block] != v.turns[turn].blocks[block]);
        assert(twice.turns[turn].blocks =~= v.turns[turn].blocks);
        assert(twice.turns[turn] =~= v.turns[turn]);
        assert(twice.turns =~= v.turns);
        assert(twice =~= v);
    }
}

/// Every event of a session names it.
pub proof fn law_event_names_its_session(event: AgentEvent)
    ensures
        event matches AgentEvent::SessionCreated { session_id, .. } ==> event.session_text()
            == session_id@,
        event matches AgentEvent::TurnStarted { session_id, .. } ==> event.session_text()
            == session_id@,
        event matches AgentEvent::AssistantTextDelta { session_id, .. } ==> event.session_text()
            == session_id@,
        event matches AgentEvent::ThinkingDelta { session_id, .. } ==> event.session_text()
            == session_id@,
        event matches AgentEvent::ToolCallStarted { session_id, .. } ==> event.session_text()
            == session_id@,
        event matches AgentEvent::ToolCallChunk { session_id, .. } ==> event.session_text()
            == session_id@,
        event matches AgentEvent::ToolCallFinished { session_id, .. } ==> event.session_text()
            == session_id@,
        event matches AgentEvent::TurnFinished { session_id, .. } ==> event.session_text()
            == session_id@,
        event matches AgentEvent::ComponentRender { session_id, .. } ==> event.session_text()
            == session_id@,
        event matches AgentEvent::ComponentUnmount { session_id, .. } ==> event.session_text()
            == session_id@,
        event is Other ==> event.session_text().len() == 0,
{
}

/// At first nothing is said, typed or streamed, and nothing can be sent until something is
/// typed.
pub proof fn law_conversation_starts_empty()
    ensures
        no_conversation().turns.len() == 0,
        no_conversation().composer_text.len() == 0,
        !no_conversation().streaming,
        no_conversation().session_id is None,
        no_conversation().active_turn_id is None,
        no_conversation().session_tokens.input == 0,
        no_conversation().session_tokens.output == 0,
        no_conversation().session_tokens.cache_read == 0,
        !submittable(no_conversation()),
        forall|text: Seq<char>|
            !blank(text) ==> submittable(#[trigger] composed(no_conversation(), text)),
{
    assert forall|text: Seq<char>| !blank(text) implies submittable(
        #[trigger] composed(no_conversation(), text),
    ) by {
        assert(no_conversation().composer_text + text =~= text);
    }
}

} // verus!
