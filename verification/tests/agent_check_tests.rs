use inference_bridge::agent_check::{AgentFileState, AgentToolResult};

#[test]
fn in_memory_file_chain_requires_exact_serial_actions() {
    let mut state = AgentFileState::default();
    assert_eq!(state.expected_tool(), Some("create_file"));
    assert!(matches!(state.execute("append_file", "readiness.txt", ""), AgentToolResult::Rejected(_)));
    assert_eq!(state.execute("create_file", "readiness.txt", ""), AgentToolResult::Created);
    assert_eq!(state.expected_tool(), Some("append_file"));
    assert_eq!(
        state.execute("append_file", "readiness.txt", "IB_AGENT_READY_7F2C"),
        AgentToolResult::Appended { bytes: 19 }
    );
    assert_eq!(
        state.execute("verify_file", "readiness.txt", ""),
        AgentToolResult::Verified { exact: true, content: "IB_AGENT_READY_7F2C".to_string() }
    );
    assert!(state.verified);
    assert_eq!(state.expected_tool(), None);
}

#[test]
fn refusals_explain_what_is_expected() {
    let mut state = AgentFileState::default();
    assert_eq!(
        state.execute("verify_file", "readiness.txt", ""),
        AgentToolResult::Rejected("Expected create_file next, not verify_file".to_string())
    );
    assert_eq!(
        state.execute("create_file", "other.txt", ""),
        AgentToolResult::Rejected("path must equal readiness.txt".to_string())
    );
    state.execute("create_file", "readiness.txt", "");
    assert_eq!(
        state.execute("append_file", "readiness.txt", "wrong"),
        AgentToolResult::Rejected("content must equal IB_AGENT_READY_7F2C".to_string())
    );
    assert_eq!(state.content, "");
    let mut done = AgentFileState { created: true, content: "IB_AGENT_READY_7F2C".to_string(), verified: true };
    assert_eq!(
        done.execute("create_file", "readiness.txt", ""),
        AgentToolResult::Rejected("Expected the final AGENT_READY answer next, not create_file".to_string())
    );
}
