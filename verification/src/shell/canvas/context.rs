//! The account of the canvas that goes to the agent with a prompt.

use vstd::prelude::*;

use crate::shell::canvas::ledger::{CanvasLedger, CompactCanvasContext};
use crate::text::copy_str;

verus! {

broadcast use vstd::string::group_string_axioms;

use crate::shell::canvas::ledger::compact_of;

/// What the agent is told about the account that follows.
pub const CANVAS_CONTEXT_CONTRACT: &'static str =
    "The block below is the live state of the Ocean native canvas for this session — shared working memory for you and the human. It is authoritative. Reuse the component ids, kinds, rects, edges, selection, and viewport shown here when you read or mutate the canvas. To change the canvas, call `surface_patch`; do not draw ASCII diagrams in chat and do not ask the human to draw manually. If a component already exists, update it by id rather than creating a duplicate. If exact x/y does not matter, omit it and let the app place the component.";

/// The canvases of a turn: their ids, and the active one in short.
#[derive(Clone, Debug, PartialEq, Eq)]
pub struct CanvasTurnContext {
    pub active_canvas_id: Option<String>,
    pub canvas_ids: Vec<String>,
    pub active: Option<CompactCanvasContext>,
}

impl CanvasTurnContext {
    /// The context of the active ledger, an empty one where there is none.
    #[must_use]
    pub fn from_ledger(ledger: Option<&CanvasLedger>) -> (r: Self)
        ensures
            match ledger {
                Some(l) => {
                    &&& r.active_canvas_id matches Some(id) && id@ == l@.canvas_id
                    &&& r.canvas_ids@.len() == 1
                    &&& r.canvas_ids@[0]@ == l@.canvas_id
                    &&& r.active matches Some(c) && c@ == compact_of(l@)
                },
                None => {
                    &&& r.active_canvas_id is None
                    &&& r.canvas_ids@.len() == 0
                    &&& r.active is None
                },
            },
    {
        let mut canvas_ids: Vec<String> = Vec::new();
        match ledger {
            Some(ledger) => {
                let compact = ledger.compact_context();
                canvas_ids.push(copy_str(compact.canvas_id.as_str()));
                CanvasTurnContext {
                    active_canvas_id: Some(copy_str(compact.canvas_id.as_str())),
                    canvas_ids,
                    active: Some(compact),
                }
            },
            None => CanvasTurnContext { active_canvas_id: None, canvas_ids, active: None },
        }
    }

    /// Whether there is no canvas to speak of.
    #[must_use]
    pub fn is_empty(&self) -> (r: bool)
        ensures
            r == (self.active is None && self.canvas_ids@.len() == 0),
    {
        self.active.is_none() && self.canvas_ids.len() == 0
    }
}

/// The block for a prompt: the tags, what the agent is told, and the JSON text of the
/// turn context.
pub open spec fn context_block(json: Seq<char>) -> Seq<char> {
    "<ocean_canvas_context>\n"@ + CANVAS_CONTEXT_CONTRACT@ + "\n\n"@ + json
        + "\n</ocean_canvas_context>"@
}

/// The block for a prompt, nothing where there is no canvas. `json` is the JSON text of
/// the turn context.
#[must_use]
pub fn canvas_context_block(context: &CanvasTurnContext, json: &str) -> (r: Option<String>)
    ensures
        context.active is None && context.canvas_ids@.len() == 0 ==> r is None,
        !(context.active is None && context.canvas_ids@.len() == 0) ==> (r matches Some(s) && s@
            == context_block(json@)),
{
    if context.is_empty() {
        return None;
    }
    let mut s = copy_str("<ocean_canvas_context>\n");
    s.push_str(CANVAS_CONTEXT_CONTRACT);
    s.push_str("\n\n");
    s.push_str(json);
    s.push_str("\n</ocean_canvas_context>");
    Some(s)
}

/// The prompt with the block behind it; the prompt alone where there is no canvas.
#[must_use]
pub fn prompt_with_canvas_context(prompt: &str, context: &CanvasTurnContext, json: &str) -> (r:
    String)
    ensures
        r@ == if context.active is None && context.canvas_ids@.len() == 0 {
            prompt@
        } else {
            prompt@ + "\n\n"@ + context_block(json@)
        },
{
    match canvas_context_block(context, json) {
        Some(block) => {
            let mut s = copy_str(prompt);
            s.push_str("\n\n");
            s.push_str(block.as_str());
            s
        },
        None => copy_str(prompt),
    }
}

/// The account stands in the block as it is, between the tags and behind what the agent is
/// told.
pub proof fn law_block_holds_the_account(json: Seq<char>)
    ensures
        ({
            let head = "<ocean_canvas_context>\n"@ + CANVAS_CONTEXT_CONTRACT@ + "\n\n"@;
            let tail = "\n</ocean_canvas_context>"@;
            &&& head.is_prefix_of(context_block(json))
            &&& context_block(json).subrange(head.len() as int, (head.len() + json.len()) as int)
                == json
            &&& context_block(json).skip((head.len() + json.len()) as int) == tail
        }),
{
    let head = "<ocean_canvas_context>\n"@ + CANVAS_CONTEXT_CONTRACT@ + "\n\n"@;
    let tail = "\n</ocean_canvas_context>"@;
    assert(context_block(json) =~= head + json + tail);
    assert(context_block(json).subrange(
        head.len() as int,
        (head.len() + json.len()) as int,
    ) =~= json);
    assert(context_block(json).skip((head.len() + json.len()) as int) =~= tail);
}

} // verus!
