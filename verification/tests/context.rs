use slimcode::agent::session::{Message, Role};
use slimcode::app::context::{
    build_system_prompt, format_environment, skill_loaded_in, ContextBuilder, Environment, DEFAULT_SYSTEM_PROMPT,
};

#[test]
fn default_system_prompt_is_markdown_structured() {
    let prompt = DEFAULT_SYSTEM_PROMPT;
    assert!(prompt.contains("You are slimcode, a coding agent that works in a repository directory.\n\n"), "got: {prompt}");
    assert!(prompt.contains("## Tools\n\n"), "got: {prompt}");
    assert!(prompt.contains("`read`"), "got: {prompt}");
    assert!(prompt.contains("`bash`"), "got: {prompt}");
    assert!(prompt.contains("## Working style\n\n"), "got: {prompt}");
    assert!(prompt.contains("- Keep answers concise.\n"), "got: {prompt}");
}

fn environment() -> Environment {
    Environment {
        os: "macos".to_string(),
        global_home: "/home/u/.slimcode".to_string(),
        project_home: "/home/u/work/repo".to_string(),
    }
}

#[test]
fn default_system_prompt_is_used_without_override() {
    let context = ContextBuilder::new().with_user_prompt("hello").build().unwrap();
    assert_eq!(context.messages.len(), 1);
    assert_eq!(context.system.role, Role::System);
    assert_eq!(context.system.text_content(), DEFAULT_SYSTEM_PROMPT);
    assert_eq!(context.messages[0].role, Role::User);
    assert_eq!(context.messages[0].text_content(), "hello");
}

#[test]
fn non_empty_history_is_kept_and_system_stays_separate() {
    let history = vec![Message::text(Role::Assistant, "earlier")];
    let context = ContextBuilder::new()
        .with_system("live system")
        .with_history(history)
        .with_user_prompt("again")
        .build()
        .unwrap();
    assert_eq!(context.system.text_content(), "live system");
    assert_eq!(context.messages.len(), 2);
    assert_eq!(context.messages[0].role, Role::Assistant);
    assert_eq!(context.messages[0].text_content(), "earlier");
    assert_eq!(context.messages[1].text_content(), "again");
}

#[test]
fn build_errors_without_user_message() {
    let err = ContextBuilder::new().build().unwrap_err();
    assert_eq!(err, "no user message set: call with_user_prompt");
}

#[test]
fn environment_injects_between_base_and_context_files() {
    let context = ContextBuilder::new()
        .with_environment(environment())
        .with_context_files("\n\n## Project context\n\ndo the thing\n")
        .with_skills("\n\n## Skills\n\n- auto: runs automatically\n")
        .with_user_prompt("hello")
        .build()
        .unwrap();
    let system = context.system.text_content();
    let base = system.find("You are slimcode").unwrap();
    let env = system.find("## Environment").unwrap();
    let ctx = system.find("## Project context").unwrap();
    let skills = system.find("## Skills").unwrap();
    assert!(base < env && env < ctx && ctx < skills, "got: {system}");
    assert!(system.contains("- OS: macos"));
    assert!(system.contains("- global home: /home/u/.slimcode"));
    assert!(system.contains("- project home: /home/u/work/repo"));
}

#[test]
fn environment_section_and_system_prompt_are_exact() {
    assert_eq!(
        format_environment(&environment()),
        "\n\n## Environment\n\n- OS: macos\n- global home: /home/u/.slimcode\n- project home: /home/u/work/repo\n"
    );
    assert_eq!(build_system_prompt("B", None, "C", "S"), "BCS");
}

#[test]
fn skill_loaded_in_detects_the_xml_marker() {
    let history = vec![Message::text(Role::User, "<skill name=\"deploy\">\nsteps\n</skill>")];
    assert!(skill_loaded_in(&history, "deploy"));
    assert!(!skill_loaded_in(&history, "dep"));
    assert!(!skill_loaded_in(&[], "deploy"));
}

#[test]
fn with_system_overrides_default() {
    let context = ContextBuilder::new().with_system("be a coder").with_user_prompt("hello").build().unwrap();
    assert_eq!(context.messages.len(), 1);
    assert_eq!(context.system.role, Role::System);
    assert_eq!(context.system.text_content(), "be a coder");
    assert_eq!(context.messages[0].text_content(), "hello");
}

#[test]
fn empty_history_seeds_only_the_user_message() {
    let context = ContextBuilder::new().with_system("be a coder").with_user_prompt("hello").build().unwrap();
    assert_eq!(context.messages.len(), 1);
    assert_eq!(context.system.text_content(), "be a coder");
    assert_eq!(context.messages[0].role, Role::User);
    assert_eq!(context.messages[0].text_content(), "hello");
}

#[test]
fn with_user_prompt_sets_user_message() {
    let context = ContextBuilder::new().with_user_prompt("do it").build().unwrap();
    assert_eq!(context.messages.last().unwrap().role, Role::User);
    assert_eq!(context.messages.last().unwrap().text_content(), "do it");
}

#[test]
fn no_environment_has_no_environment_section() {
    let context = ContextBuilder::new().with_user_prompt("hello").build().unwrap();
    let system = context.system.text_content();
    assert!(!system.contains("## Environment"), "got: {system}");
    assert!(!system.contains("global home"), "got: {system}");
}

#[test]
fn no_context_files_has_no_project_context_section() {
    let context = ContextBuilder::new().with_user_prompt("hello").build().unwrap();
    let system = context.system.text_content();
    assert!(!system.contains("## Project context"), "got: {system}");
    assert!(!system.contains("AGENTS.md"), "got: {system}");
}

#[test]
fn environment_section_precedes_skills_without_context_files() {
    let context = ContextBuilder::new()
        .with_environment(environment())
        .with_skills("\n\n## Skills\n\n- auto: runs automatically\n")
        .with_user_prompt("hello")
        .build()
        .unwrap();
    let system = context.system.text_content();
    let env = system.find("## Environment").unwrap();
    let skills_idx = system.find("## Skills").unwrap();
    assert!(env < skills_idx, "got: {system}");
    assert!(system.contains("- OS: macos"), "got: {system}");
    assert!(system.contains("- global home: /home/u/.slimcode"), "got: {system}");
    assert!(system.contains("- project home: /home/u/work/repo"), "got: {system}");
}
