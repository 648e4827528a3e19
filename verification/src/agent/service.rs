//! Putting an agent together.

use vstd::prelude::*;
use vstd::string::*;

use crate::agent::cache;
use crate::agent::executor::BuiltinToolRegistry;
use crate::agent::protocol::{AgentError, AgentResult};
use crate::agent::tools;
use crate::agent::tools::AgentTool;
use crate::agent::types::AgentConfig;

verus! {

/// The tools that come with the agent, under the rule of the configuration for running them again.
pub fn build_default_tool_executor(config: &AgentConfig) -> (r: BuiltinToolRegistry<AgentTool>)
    ensures
        tools::are_defaults(r.tools.tools@),
        cache::is_new_cache(r.cache),
        r.retry_config == config.tool_retry,
{
    let mut r: BuiltinToolRegistry<AgentTool> = BuiltinToolRegistry::new(config.tool_retry);
    let ghost before = r.tools.tools@;
    r.register_defaults();
    proof {
        let added = choose|added: Seq<AgentTool>| #[trigger]
            tools::are_defaults(added) && r.tools.tools@ == before + added;
        assert(before + added =~= added);
    }
    r
}

/// The parts of an agent, as far as they are there: `L` is the language model, `S` the services
/// and `E` what runs the tools.
pub struct AgentBuilder<L, S, E> {
    pub config: AgentConfig,
    pub llm_service: Option<L>,
    pub services: Option<S>,
    pub tool_executor: Option<E>,
}

/// All parts of an agent. Without anything that runs tools, the agent runs those that come with
/// it.
pub struct AgentParts<L, S, E> {
    pub config: AgentConfig,
    pub llm_service: L,
    pub services: S,
    pub tool_executor: Option<E>,
}

/// What is missing, if something is.
pub open spec fn missing_part<L, S, E>(b: AgentBuilder<L, S, E>) -> Option<Seq<char>> {
    if b.llm_service is None {
        Some("AgentBuilder: llm_service is required"@)
    } else if b.services is None {
        Some("AgentBuilder: services is required"@)
    } else {
        None
    }
}

/// An agent can be put together once there are a language model and services, whatever runs its
/// tools. Setting one part leaves the others as they are.
pub proof fn law_model_and_services_are_enough<L, S, E>(
    b: AgentBuilder<L, S, E>,
    model: L,
    services: S,
)
    ensures
        missing_part(b) is None <==> b.llm_service is Some && b.services is Some,
        missing_part(
            AgentBuilder { llm_service: Some(model), services: Some(services), ..b },
        ) is None,
        b.llm_service is None ==> missing_part(b) == Some(
            "AgentBuilder: llm_service is required"@,
        ),
        b.llm_service is Some && b.services is None ==> missing_part(b) == Some(
            "AgentBuilder: services is required"@,
        ),
{
}

impl<L, S, E> AgentBuilder<L, S, E> {
    /// Nothing but a configuration.
    #[must_use]
    pub fn new(config: AgentConfig) -> (r: Self)
        ensures
            r.config == config,
            r.llm_service is None,
            r.services is None,
            r.tool_executor is None,
    {
        AgentBuilder { config, llm_service: None, services: None, tool_executor: None }
    }

    /// The same with something that runs tools.
    #[must_use]
    pub fn with_tool_executor(self, executor: E) -> (r: Self)
        ensures
            r == (AgentBuilder { tool_executor: Some(executor), ..self }),
    {
        AgentBuilder { tool_executor: Some(executor), ..self }
    }

    /// The same with a language model.
    #[must_use]
    pub fn with_llm(self, llm_service: L) -> (r: Self)
        ensures
            r == (AgentBuilder { llm_service: Some(llm_service), ..self }),
    {
        AgentBuilder { llm_service: Some(llm_service), ..self }
    }

    /// The same with services.
    #[must_use]
    pub fn with_services(self, services: S) -> (r: Self)
        ensures
            r == (AgentBuilder { services: Some(services), ..self }),
    {
        AgentBuilder { services: Some(services), ..self }
    }

    /// The configuration.
    pub fn config(&self) -> (r: &AgentConfig)
        ensures
            *r == self.config,
    {
        &self.config
    }

    /// The parts, if none is missing that must be there.
    pub fn into_parts(self) -> (r: AgentResult<AgentParts<L, S, E>>)
        ensures
            match r {
                Ok(parts) => {
                    &&& missing_part(self) is None
                    &&& parts.config == self.config
                    &&& self.llm_service == Some(parts.llm_service)
                    &&& self.services == Some(parts.services)
                    &&& parts.tool_executor == self.tool_executor
                },
                Err(AgentError::Internal(m)) => missing_part(self) == Some(m@),
                Err(_) => false,
            },
    {
        let AgentBuilder { config, llm_service, services, tool_executor } = self;
        let llm_service = match llm_service {
            Some(l) => l,
            None => {
                return Err(
                    AgentError::Internal("AgentBuilder: llm_service is required".to_owned()),
                );
            },
        };
        let services = match services {
            Some(s) => s,
            None => {
                return Err(AgentError::Internal("AgentBuilder: services is required".to_owned()));
            },
        };
        Ok(AgentParts { config, llm_service, services, tool_executor })
    }
}

impl<L, S> AgentBuilder<L, S, BuiltinToolRegistry<AgentTool>> {
    /// The same with the tools that come with the agent.
    #[must_use]
    pub fn with_default_tools(self) -> (r: Self)
        ensures
            r.config == self.config,
            r.llm_service == self.llm_service,
            r.services == self.services,
            match r.tool_executor {
                Some(registry) => {
                    &&& tools::are_defaults(registry.tools.tools@)
                    &&& cache::is_new_cache(registry.cache)
                    &&& registry.retry_config == self.config.tool_retry
                },
                None => false,
            },
    {
        let registry = build_default_tool_executor(&self.config);
        AgentBuilder { tool_executor: Some(registry), ..self }
    }
}

} // verus!
