//! Context assembly: one turn's system prompt and message list, built from a
//! base system prompt, an optional environment section, the rendered
//! project-context and skills sections, an optional history and this turn's
//! user prompt.
//!
//! The system message is assembled fresh for every turn and kept apart from
//! the history: a turn adds only its user message to history.
use vstd::prelude::*;
use crate::agent::session::{Message, Role};
use crate::ai::message::Message as WireTextMessage;
use crate::ai::message::Role as WireRole;
use crate::text::{contains, push_str};

verus! {

broadcast use vstd::seq_lib::group_seq_properties;

/// Default base system prompt grounding the agent in its tools and working
/// directory.
pub const DEFAULT_SYSTEM_PROMPT: &'static str = "You are slimcode, a coding agent that works in a repository directory.\n\n## Tools\n\nYou have these tools: `read`, `write`, `edit`, `bash`, `grep`, `find`, `ls`.\n\n## Working style\n\n- Plan with the tools available: inspect files before editing, run commands to verify, and complete the user's task.\n- Keep answers concise.\n- When a tool fails, read the error and retry with a corrected approach.";

/// System environment info for the system prompt's `## Environment`
/// section: the OS name, the global home (the slimcode home directory) and
/// the project home (the git root, or the user home as a fallback), as
/// display text.
#[derive(Clone, Debug, PartialEq, Eq)]
pub struct Environment {
    pub os: String,
    pub global_home: String,
    pub project_home: String,
}

/// The `## Environment` section: a blank-line separator, the heading, then
/// one bullet per field, ending in a single newline.
pub open spec fn spec_environment_section(env: Environment) -> Seq<char> {
    "\n\n## Environment\n\n- OS: "@ + env.os@ + "\n- global home: "@ + env.global_home@ + "\n- project home: "@
        + env.project_home@ + "\n"@
}

/// Render the `## Environment` markdown section for the system prompt.
pub fn format_environment(env: &Environment) -> (s: String)
    ensures
        s@ == spec_environment_section(*env),
{
    let mut s = String::from_str("\n\n## Environment\n\n- OS: ");
    push_str(&mut s, env.os.as_str());
    push_str(&mut s, "\n- global home: ");
    push_str(&mut s, env.global_home.as_str());
    push_str(&mut s, "\n- project home: ");
    push_str(&mut s, env.project_home.as_str());
    push_str(&mut s, "\n");
    s
}

/// The full system prompt: the base, then the environment section when one
/// is given, then the project-context section, then the skills section.
pub open spec fn spec_system_prompt(
    base: Seq<char>,
    environment: Option<Environment>,
    context_section: Seq<char>,
    skills_section: Seq<char>,
) -> Seq<char> {
    base + match environment {
        Some(e) => spec_environment_section(e),
        None => Seq::empty(),
    } + context_section + skills_section
}

/// Assemble the full system prompt from the base grounding, the optional
/// `## Environment` section, and the already rendered `## Project context`
/// and `## Skills` sections (each empty when there is nothing to show).
pub fn build_system_prompt(
    base: &str,
    environment: Option<&Environment>,
    context_section: &str,
    skills_section: &str,
) -> (s: String)
    ensures
        s@ == spec_system_prompt(
            base@,
            match environment {
                Some(e) => Some(*e),
                None => None,
            },
            context_section@,
            skills_section@,
        ),
{
    let mut prompt = base.to_owned();
    match environment {
        Some(env) => {
            let section = format_environment(env);
            push_str(&mut prompt, section.as_str());
        },
        None => {},
    }
    push_str(&mut prompt, context_section);
    push_str(&mut prompt, skills_section);
    prompt
}

/// The marker a skill trigger leaves in a message: `<skill name="NAME"`.
pub open spec fn skill_marker(name: Seq<char>) -> Seq<char> {
    "<skill name=\""@ + name + "\""@
}

/// Has a skill's `<skill name="...">` block already been injected into one
/// of the history messages? Detected from the wrapper the trigger inserts.
pub fn skill_loaded_in(history: &[Message], skill_name: &str) -> (b: bool)
    ensures
        b == exists|i: int| 0 <= i < history@.len() && contains(#[trigger] history@[i].content(), skill_marker(skill_name@)),
{
    let mut marker = String::from_str("<skill name=\"");
    push_str(&mut marker, skill_name);
    push_str(&mut marker, "\"");
    let mk = crate::text::chars_of(marker.as_str());
    let mut i: usize = 0;
    while i < history.len()
        invariant
            i <= history@.len(),
            mk@ == skill_marker(skill_name@),
            forall|j: int| 0 <= j < i ==> !contains(#[trigger] history@[j].content(), skill_marker(skill_name@)),
        decreases history.len() - i,
    {
        let text = history[i].text_content();
        let tc = crate::text::chars_of(text.as_str());
        let found = crate::text::find_chars(&tc, &mk, 0);
        proof {
            crate::text::lemma_find_from(tc@, mk@, 0);
        }
        if found.is_some() {
            assert(contains(history@[i as int].content(), skill_marker(skill_name@)));
            return true;
        }
        i = i + 1;
    }
    false
}

/// One turn's assembled context: the system message, never stored in a
/// session, and the history plus this turn's user message.
#[derive(Clone, Debug, PartialEq, Eq)]
pub struct Context {
    pub system: WireTextMessage,
    pub messages: Vec<Message>,
}

/// A fluent builder for one turn's context. The system prompt defaults to
/// `DEFAULT_SYSTEM_PROMPT`; the environment, project-context and skills
/// sections are added only when supplied.
#[derive(Debug)]
pub struct ContextBuilder {
    pub system: String,
    pub environment: Option<Environment>,
    /// The rendered `## Skills` section (empty when no skill is advertised).
    pub skills_section: String,
    /// The rendered `## Project context` section (empty without files).
    pub context_section: String,
    pub history: Vec<Message>,
    pub user: Option<String>,
}

impl ContextBuilder {
    /// Start with the default system prompt and no other components.
    pub fn new() -> (b: ContextBuilder)
        ensures
            b.system@ == DEFAULT_SYSTEM_PROMPT@,
            b.environment is None,
            b.skills_section@.len() == 0,
            b.context_section@.len() == 0,
            b.history@.len() == 0,
            b.user is None,
    {
        ContextBuilder {
            system: DEFAULT_SYSTEM_PROMPT.to_owned(),
            environment: None,
            skills_section: String::new(),
            context_section: String::new(),
            history: Vec::new(),
            user: None,
        }
    }

    /// Override the base system prompt.
    pub fn with_system(self, system: &str) -> (b: ContextBuilder)
        ensures
            b.system@ == system@,
            b.environment == self.environment,
            b.skills_section == self.skills_section,
            b.context_section == self.context_section,
            b.history == self.history,
            b.user == self.user,
    {
        let mut b = self;
        b.system = system.to_owned();
        b
    }

    /// Inject environment info as a `## Environment` section between the
    /// base prompt and the project context.
    pub fn with_environment(self, environment: Environment) -> (b: ContextBuilder)
        ensures
            b.environment == Some(environment),
            b.system == self.system,
            b.skills_section == self.skills_section,
            b.context_section == self.context_section,
            b.history == self.history,
            b.user == self.user,
    {
        let mut b = self;
        b.environment = Some(environment);
        b
    }

    /// Advertise skills through their rendered `## Skills` section.
    pub fn with_skills(self, skills_section: &str) -> (b: ContextBuilder)
        ensures
            b.skills_section@ == skills_section@,
            b.system == self.system,
            b.environment == self.environment,
            b.context_section == self.context_section,
            b.history == self.history,
            b.user == self.user,
    {
        let mut b = self;
        b.skills_section = skills_section.to_owned();
        b
    }

    /// Inject context files through their rendered `## Project context`
    /// section, between the environment and the skills.
    pub fn with_context_files(self, context_section: &str) -> (b: ContextBuilder)
        ensures
            b.context_section@ == context_section@,
            b.system == self.system,
            b.environment == self.environment,
            b.skills_section == self.skills_section,
            b.history == self.history,
            b.user == self.user,
    {
        let mut b = self;
        b.context_section = context_section.to_owned();
        b
    }

    /// Continue from an existing message history (the system message is not
    /// part of it).
    pub fn with_history(self, history: Vec<Message>) -> (b: ContextBuilder)
        ensures
            b.history == history,
            b.system == self.system,
            b.environment == self.environment,
            b.skills_section == self.skills_section,
            b.context_section == self.context_section,
            b.user == self.user,
    {
        let mut b = self;
        b.history = history;
        b
    }

    /// Set this turn's user message (a skill trigger the caller rendered is a
    /// user message too).
    pub fn with_user_prompt(self, prompt: &str) -> (b: ContextBuilder)
        ensures
            b.user matches Some(u) && u@ == prompt@,
            b.system == self.system,
            b.environment == self.environment,
            b.skills_section == self.skills_section,
            b.context_section == self.context_section,
            b.history == self.history,
    {
        let mut b = self;
        b.user = Some(prompt.to_owned());
        b
    }

    /// Assemble the turn's context; an error when no user message is set.
    /// The system message carries the full system prompt; the messages are
    /// the history followed by exactly one user message.
    pub fn build(self) -> (r: Result<Context, String>)
        ensures
            match r {
                Ok(c) => {
                    &&& self.user matches Some(u) && {
                        &&& c.messages@.len() == self.history@.len() + 1
                        &&& c.messages@.subrange(0, self.history@.len() as int) == self.history@
                        &&& c.messages@.last().role == Role::User
                        &&& c.messages@.last().content() == u@
                    }
                    &&& c.system.role == WireRole::System
                    &&& c.system.content() == spec_system_prompt(
                        self.system@,
                        self.environment,
                        self.context_section@,
                        self.skills_section@,
                    )
                },
                Err(e) => self.user is None && e@ == "no user message set: call with_user_prompt"@,
            },
    {
        let user = match &self.user {
            Some(u) => u,
            None => {
                return Err(String::from_str("no user message set: call with_user_prompt"));
            },
        };
        let prompt = build_system_prompt(
            self.system.as_str(),
            match &self.environment {
                Some(e) => Some(e),
                None => None,
            },
            self.context_section.as_str(),
            self.skills_section.as_str(),
        );
        let system = WireTextMessage::text(WireRole::System, prompt.as_str());
        let user_message = Message::text(Role::User, user.as_str());
        let mut messages = self.history;
        messages.push(user_message);
        Ok(Context { system, messages })
    }
}

impl Default for ContextBuilder {
    fn default() -> (b: ContextBuilder)
        ensures
            b.system@ == DEFAULT_SYSTEM_PROMPT@,
            b.environment is None,
            b.history@.len() == 0,
            b.user is None,
    {
        ContextBuilder::new()
    }
}

} // verus!
