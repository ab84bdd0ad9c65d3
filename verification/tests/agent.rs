//! The agent's conversation.

use ocean_gui::json::Json;
use ocean_gui::shell::agent::{
    args_preview, AgentBlock, AgentEvent, AgentRole, AgentState, AgentTurn, ToolCallSummary,
    ToolResult, ToolStatus,
};

fn own(s: &str) -> String {
    String::from(s)
}

#[test]
fn submit_echoes_user_prompt_and_marks_streaming() {
    let mut state = AgentState::default();
    state.insert_composer_text("  hello ocean  ");

    let prompt = state.take_prompt_for_submit();

    assert_eq!(prompt.as_deref(), Some("hello ocean"));
    assert!(state.streaming);
    assert!(state.composer_text.is_empty());
    assert_eq!(state.turns.len(), 1);
    assert_eq!(state.turns[0].role, AgentRole::User);
}

#[test]
fn nothing_is_submitted_while_streaming_or_blank() {
    let mut state = AgentState::default();
    state.insert_composer_text(" \n");
    assert!(!state.can_submit());
    assert_eq!(state.take_prompt_for_submit(), None);

    state.insert_composer_text("x");
    assert!(state.can_submit());
    state.delete_composer_backward();
    assert!(!state.can_submit());
    state.insert_composer_text("again");
    state.streaming = true;
    assert_eq!(state.take_prompt_for_submit(), None);
    state.mark_post_error("offline");
    assert_eq!(state.status, "post error: offline");
    assert!(state.can_submit());
}

#[test]
fn reducer_streams_assistant_text_for_existing_session() {
    let mut state = AgentState::default();
    state.session_id = Some(own("s1"));
    state.apply_event(AgentEvent::SessionCreated {
        session_id: own("s1"),
        title: own("Ocean"),
        cwd: own("/tmp"),
    });
    state.apply_event(AgentEvent::TurnStarted {
        turn_id: own("t1"),
        session_id: own("s1"),
        model: Some(own("model-a")),
    });
    state.apply_event(AgentEvent::AssistantTextDelta {
        session_id: own("s1"),
        turn_id: own("t1"),
        delta: own("hello"),
    });
    state.apply_event(AgentEvent::AssistantTextDelta {
        session_id: own("s1"),
        turn_id: own("t1"),
        delta: own(" world"),
    });

    assert_eq!(state.session_id.as_deref(), Some("s1"));
    assert_eq!(state.model.as_deref(), Some("model-a"));
    assert_eq!(state.active_turn_id.as_deref(), Some("t1"));
    assert_eq!(
        state.turns.last().and_then(|turn| turn.blocks.last()),
        Some(&AgentBlock::Text(own("hello world")))
    );
}

#[test]
fn reducer_tracks_tool_output_and_status() {
    let mut state = AgentState::default();
    state.apply_event(AgentEvent::ToolCallStarted {
        session_id: own("s1"),
        turn_id: own("t1"),
        call: ToolCallSummary {
            id: own("c1"),
            name: own("shell"),
            args_json: own("{ \"cmd\" : \"pwd\" }"),
        },
    });
    state.apply_event(AgentEvent::ToolCallChunk {
        session_id: own("s1"),
        turn_id: own("t1"),
        call_id: own("c1"),
        chunk: own("/repo"),
    });
    state.apply_event(AgentEvent::ToolCallFinished {
        session_id: own("s1"),
        turn_id: own("t1"),
        call_id: own("c1"),
        result: ToolResult { ok: true, output: String::new() },
    });

    let AgentBlock::ToolCall { output, status, args_preview, .. } = &state.turns[0].blocks[0]
    else {
        panic!("expected tool block");
    };
    assert_eq!(output, "/repo");
    assert_eq!(*status, ToolStatus::Succeeded);
    assert_eq!(args_preview, "{\"cmd\":\"pwd\"}");
}

#[test]
fn reducer_finishes_turn_and_records_tokens() {
    let mut state = AgentState::default();
    state.streaming = true;
    state.active_turn_id = Some(own("t1"));

    state.apply_event(AgentEvent::TurnFinished {
        session_id: own("s1"),
        turn_id: own("t1"),
        status: own("completed"),
        error: None,
        wall_ms: Some(100),
        output_tokens: Some(11),
        input_tokens: Some(7),
        cache_read_tokens: Some(3),
        tokens_per_second_bits: Some(42.0f64.to_bits()),
    });

    assert!(!state.streaming);
    assert!(state.active_turn_id.is_none());
    assert_eq!(state.last_turn_tokens.expect("tokens").output, 11);
    assert_eq!(
        f64::from_bits(state.last_turn_tokens.expect("tokens").tokens_per_second_bits),
        42.0
    );
    assert_eq!(state.session_tokens.input, 7);
    assert_eq!(state.session_tokens.cache_read, 3);
}

#[test]
fn toggles_collapsible_blocks_only() {
    let mut state = AgentState::default();
    state.turns.push(AgentTurn {
        turn_id: Some(own("t1")),
        role: AgentRole::Assistant,
        blocks: vec![
            AgentBlock::Text(own("hello")),
            AgentBlock::Thinking { content: own("reasoning"), expanded: false },
            AgentBlock::ToolCall {
                call_id: own("c1"),
                name: own("shell"),
                args_preview: own("{}"),
                output: own("done"),
                status: ToolStatus::Succeeded,
                expanded: false,
            },
        ],
    });

    assert!(!state.toggle_block_expanded(0, 0));
    assert!(state.toggle_block_expanded(0, 1));
    assert!(state.toggle_block_expanded(0, 2));
    assert!(!state.toggle_block_expanded(0, 3));
    assert!(!state.toggle_block_expanded(1, 0));

    let AgentBlock::Thinking { expanded, .. } = &state.turns[0].blocks[1] else {
        panic!("expected thinking block");
    };
    assert!(*expanded);

    let AgentBlock::ToolCall { expanded, .. } = &state.turns[0].blocks[2] else {
        panic!("expected tool block");
    };
    assert!(*expanded);
}

#[test]
fn previews_are_cut_after_sixty_characters() {
    assert_eq!(args_preview(&None), "{}");
    assert_eq!(args_preview(&Some("é".repeat(70))), "é".repeat(60));
}

#[test]
fn components_come_and_go() {
    let mut state = AgentState::default();
    state.apply_event(AgentEvent::ComponentRender {
        session_id: own("s1"),
        component_id: own("card"),
        kind: own("confirm"),
        props: Json::Null,
        replace: false,
    });
    assert!(state.turns.iter().any(|turn| turn
        .blocks
        .iter()
        .any(|block| matches!(block, AgentBlock::Component { .. }))));
    state.apply_event(AgentEvent::ComponentUnmount {
        session_id: own("s1"),
        component_id: own("card"),
    });
    assert!(!state.turns.iter().any(|turn| turn
        .blocks
        .iter()
        .any(|block| matches!(block, AgentBlock::Component { .. }))));
}

#[test]
fn events_without_a_session_name_none() {
    let event = |session: &str| AgentEvent::AssistantTextDelta {
        session_id: own(session),
        turn_id: own("t"),
        delta: own("d"),
    };
    assert_eq!(event("s1").session_id(), Some("s1"));
    assert_eq!(event("").session_id(), None);
}
