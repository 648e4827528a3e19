use atlas::agent::executor::BuiltinToolRegistry;
use atlas::agent::protocol::AgentError;
use atlas::agent::service::AgentBuilder;
use atlas::agent::tools::AgentTool;
use atlas::agent::types::AgentConfig;

type Builder = AgentBuilder<&'static str, u8, BuiltinToolRegistry<AgentTool>>;

#[test]
fn agent_builder_default_state() {
    let builder: Builder = AgentBuilder::new(AgentConfig::default());
    assert_eq!(builder.config().project_path, ".");
    assert!(builder.llm_service.is_none());
    assert!(builder.services.is_none());
    assert!(builder.tool_executor.is_none());
}

#[test]
fn with_default_tools_sets_executor() {
    let builder: Builder = AgentBuilder::new(AgentConfig::default()).with_default_tools();
    assert!(builder.tool_executor.is_some());
}

#[test]
fn run_without_llm_returns_error() {
    let builder: Builder = AgentBuilder::new(AgentConfig::default());
    let result = builder.into_parts();
    assert!(matches!(result, Err(AgentError::Internal(_))));
}

#[test]
fn run_without_services_returns_error() {
    let builder: Builder = AgentBuilder::new(AgentConfig::default()).with_llm("model");
    assert!(builder.services.is_none());
    match builder.into_parts() {
        Err(AgentError::Internal(m)) => assert_eq!(m, "AgentBuilder: services is required"),
        _ => panic!("Expected Internal error"),
    }
}

#[test]
fn all_parts_are_handed_on() {
    let builder: Builder =
        AgentBuilder::new(AgentConfig::default()).with_llm("model").with_services(7);
    let parts = builder.into_parts().unwrap();
    assert_eq!((parts.llm_service, parts.services), ("model", 7));
    assert!(parts.tool_executor.is_none());
}
