use ponopush::settings::{load, Settings};
use ponopush::workflow::{classify_args, Action, Cli, Event, Machine};

#[test]
fn completion_failure_still_reaches_the_editor() {
    let s = Settings {
        token: "sk-test".to_string(),
        url: "https://example.test/v1".to_string(),
        model: "gpt-4o".to_string(),
        max_tokens: 300,
    };
    let (m, a) = Machine::start(s, Cli::Run);
    assert!(matches!(a, Action::RunStatus));
    let (m, a) = m.step(Event::StatusOutput { text: "M .gitignore".to_string() });
    assert!(matches!(a, Action::StageAll));
    let (m, a) = m.step(Event::Staged);
    assert!(matches!(a, Action::ReadDiff));
    let (m, a) = m.step(Event::DiffText { text: "diff".to_string() });
    assert!(matches!(a, Action::ReadTemplate));
    let (m, a) = m.step(Event::TemplateText { text: "tpl:".to_string() });
    assert!(matches!(a, Action::SendRequest { .. }));
    let (_m, a) = m.step(Event::CompletionFailed);
    match a {
        Action::OpenEditor { draft } => {
            assert_eq!(draft, "Failed to get commit message from OpenAI");
            assert!(!draft.is_empty());
        },
        other => panic!("expected the editor to open, got {:?}", action_name(&other)),
    }
}

#[test]
fn blank_message_exits_one_without_commit_or_push() {
    let s = Settings {
        token: "sk-test".to_string(),
        url: "u".to_string(),
        model: "m".to_string(),
        max_tokens: 300,
    };
    let mut actions: Vec<&'static str> = Vec::new();
    let (m, a) = Machine::start(s, Cli::Run);
    actions.push(action_name(&a));
    let (m, a) = m.step(Event::StatusOutput { text: "".to_string() });
    actions.push(action_name(&a));
    assert!(matches!(a, Action::StageGitignore));
    let (m, a) = m.step(Event::Staged);
    actions.push(action_name(&a));
    assert!(matches!(a, Action::StageAll));
    let (m, a) = m.step(Event::Staged);
    actions.push(action_name(&a));
    let (m, a) = m.step(Event::DiffText { text: "d".to_string() });
    actions.push(action_name(&a));
    let (m, a) = m.step(Event::TemplateText { text: "t".to_string() });
    actions.push(action_name(&a));
    let (m, a) = m.step(Event::ResponseBody {
        text: "{\"choices\":[{\"message\":{\"content\":\"draft\"}}]}".to_string(),
    });
    actions.push(action_name(&a));
    assert!(matches!(a, Action::OpenEditor { .. }));
    let (_m, a) = m.step(Event::Edited { text: "   \n".to_string() });
    actions.push(action_name(&a));
    match a {
        Action::Exit { code, error } => {
            assert_eq!(code, 1);
            assert_eq!(error.as_deref(), Some("Commit message cannot be empty."));
        },
        other => panic!("expected an exit, got {:?}", action_name(&other)),
    }
    assert!(!actions.contains(&"commit"));
    assert!(!actions.contains(&"push"));
}

#[test]
fn nonblank_message_commits_verbatim_then_pushes_once() {
    let s = Settings {
        token: "sk-test".to_string(),
        url: "u".to_string(),
        model: "m".to_string(),
        max_tokens: 300,
    };
    let mut actions: Vec<&'static str> = Vec::new();
    let (m, a) = Machine::start(s, Cli::Run);
    actions.push(action_name(&a));
    let (m, a) = m.step(Event::StatusOutput { text: "M .gitignore".to_string() });
    actions.push(action_name(&a));
    let (m, a) = m.step(Event::Staged);
    actions.push(action_name(&a));
    let (m, a) = m.step(Event::DiffText { text: "d".to_string() });
    actions.push(action_name(&a));
    let (m, a) = m.step(Event::TemplateText { text: "t".to_string() });
    actions.push(action_name(&a));
    let (m, a) = m.step(Event::CompletionFailed);
    actions.push(action_name(&a));
    let (m, a) = m.step(Event::Edited { text: "Fix off-by-one in parser\n".to_string() });
    actions.push(action_name(&a));
    match &a {
        Action::Commit { message } => assert_eq!(message, "Fix off-by-one in parser\n"),
        other => panic!("expected a commit, got {:?}", action_name(other)),
    }
    let (m, a) = m.step(Event::Done);
    actions.push(action_name(&a));
    assert!(matches!(a, Action::Push));
    let (m, a) = m.step(Event::Done);
    actions.push(action_name(&a));
    assert!(matches!(a, Action::RemoveScratch));
    let (_m, a) = m.step(Event::Done);
    actions.push(action_name(&a));
    match a {
        Action::Exit { code, error } => {
            assert_eq!(code, 0);
            assert!(error.is_none());
        },
        other => panic!("expected the normal exit, got {:?}", action_name(&other)),
    }
    assert_eq!(actions.iter().filter(|n| **n == "commit").count(), 1);
    assert_eq!(actions.iter().filter(|n| **n == "push").count(), 1);
    let commit_at = actions.iter().position(|n| *n == "commit").unwrap();
    let push_at = actions.iter().position(|n| *n == "push").unwrap();
    assert_eq!(push_at, commit_at + 1);
}

#[test]
fn unreadable_response_gets_the_failure_fallback() {
    let s = Settings {
        token: "sk-test".to_string(),
        url: "u".to_string(),
        model: "m".to_string(),
        max_tokens: 300,
    };
    let (m, _a) = Machine::start(s, Cli::Run);
    let (m, _a) = m.step(Event::StatusOutput { text: ".gitignore".to_string() });
    let (m, _a) = m.step(Event::Staged);
    let (m, _a) = m.step(Event::DiffText { text: "d".to_string() });
    let (m, _a) = m.step(Event::TemplateText { text: "t".to_string() });
    let (_m, a) = m.step(Event::ResponseBody { text: "<html>502</html>".to_string() });
    match a {
        Action::OpenEditor { draft } => {
            assert_eq!(draft, "Failed to get commit message from OpenAI");
        },
        _ => panic!("expected the editor to open on the fallback draft"),
    }
}

#[test]
fn blank_token_entry_prompts_again() {
    let s = load(None);
    let (m, a) = Machine::start(s, Cli::Run);
    assert!(matches!(a, Action::PromptForToken));
    // An entry that trims to nothing is not stored: the prompt repeats.
    let (m, a) = m.step(Event::TokenEntered { text: "   \n".to_string() });
    assert!(matches!(a, Action::PromptForToken));
    let (m, a) = m.step(Event::TokenEntered { text: "sk-test\n".to_string() });
    let file_text = match a {
        Action::SaveSettings { text } => text,
        _ => panic!("expected the settings to be saved"),
    };
    assert_eq!(load(Some(&file_text)).token, "sk-test");
    let (_m, a) = m.step(Event::Saved);
    assert!(matches!(a, Action::RunStatus));
}

#[test]
fn editor_failure_exits_one() {
    let s = Settings {
        token: "sk-test".to_string(),
        url: "u".to_string(),
        model: "m".to_string(),
        max_tokens: 300,
    };
    let (m, _a) = Machine::start(s, Cli::Run);
    let (m, _a) = m.step(Event::StatusOutput { text: ".gitignore".to_string() });
    let (m, _a) = m.step(Event::Staged);
    let (m, _a) = m.step(Event::DiffText { text: "d".to_string() });
    let (m, _a) = m.step(Event::TemplateText { text: "t".to_string() });
    let (m, _a) = m.step(Event::CompletionFailed);
    let (_m, a) = m.step(Event::EditorFailed);
    match a {
        Action::Exit { code, error } => {
            assert_eq!(code, 1);
            assert_eq!(error.as_deref(), Some("Editor exited with an error."));
        },
        _ => panic!("expected an exit"),
    }
}

#[test]
fn first_run_prompts_for_token_and_persists_it() {
    let s = load(None);
    assert_eq!(s.token, "");
    let (m, a) = Machine::start(s, Cli::Run);
    assert!(matches!(a, Action::PromptForToken));
    let (m, a) = m.step(Event::TokenEntered { text: "sk-test\n".to_string() });
    let file_text = match a {
        Action::SaveSettings { text } => text,
        _ => panic!("expected the settings to be saved"),
    };
    let reloaded = load(Some(&file_text));
    assert_eq!(reloaded.token, "sk-test");
    let (_m, a) = m.step(Event::Saved);
    assert!(matches!(a, Action::RunStatus));
    // A later run with the persisted file loads the token and does not prompt.
    let (_m2, a2) = Machine::start(reloaded, Cli::Run);
    assert!(matches!(a2, Action::RunStatus));
}

#[test]
fn config_override_saves_and_exits_without_git_or_editor() {
    let args: Vec<String> = vec![
        "ponopush".to_string(),
        "config".to_string(),
        "api.max_tokens".to_string(),
        "500".to_string(),
    ];
    let cli = classify_args(&args);
    let mut s = load(None);
    s.token = "sk-test".to_string();
    let (m, a) = Machine::start(s, cli);
    let file_text = match a {
        Action::SaveSettings { text } => text,
        other => panic!("expected only a save, got {:?}", action_name(&other)),
    };
    let (_m, a) = m.step(Event::Saved);
    match a {
        Action::Exit { code, error } => {
            assert_eq!(code, 0);
            assert!(error.is_none());
        },
        other => panic!("expected the exit, got {:?}", action_name(&other)),
    }
    // The immediately following normal run uses 500 as the cap in the body.
    let s2 = load(Some(&file_text));
    assert_eq!(s2.max_tokens, 500);
    let (m, a) = Machine::start(s2, Cli::Run);
    assert!(matches!(a, Action::RunStatus));
    let (m, _a) = m.step(Event::StatusOutput { text: ".gitignore".to_string() });
    let (m, _a) = m.step(Event::Staged);
    let (m, _a) = m.step(Event::DiffText { text: "D".to_string() });
    let (_m, a) = m.step(Event::TemplateText { text: "T".to_string() });
    match a {
        Action::SendRequest { url, token, body } => {
            assert_eq!(url, "https://api.openai.com/v1/chat/completions");
            assert_eq!(token, "sk-test");
            assert_eq!(
                body,
                "{\"model\":\"gpt-4o\",\"messages\":[{\"role\":\"user\",\"content\":\"TD\"}],\"max_tokens\":500}"
            );
        },
        other => panic!("expected the request, got {:?}", action_name(&other)),
    }
}

#[test]
fn unknown_config_key_reports_and_writes_nothing() {
    let args: Vec<String> = vec![
        "ponopush".to_string(),
        "config".to_string(),
        "api.nonsense".to_string(),
        "x".to_string(),
    ];
    let cli = classify_args(&args);
    let mut s = load(None);
    s.token = "sk-test".to_string();
    let (_m, a) = Machine::start(s, cli);
    match a {
        Action::Exit { code, error } => {
            assert_eq!(code, 0);
            assert_eq!(error.as_deref(), Some("Invalid configuration key"));
        },
        other => panic!("expected an exit without a save, got {:?}", action_name(&other)),
    }
}

#[test]
fn other_command_lines_run_the_workflow() {
    let args: Vec<String> = vec!["ponopush".to_string(), "config".to_string()];
    assert!(matches!(classify_args(&args), Cli::Run));
    let args: Vec<String> = vec!["ponopush".to_string()];
    assert!(matches!(classify_args(&args), Cli::Run));
    let args: Vec<String> = vec![
        "ponopush".to_string(),
        "setup".to_string(),
        "api.token".to_string(),
        "x".to_string(),
    ];
    assert!(matches!(classify_args(&args), Cli::Run));
}

#[test]
fn empty_token_prompts_even_before_a_config_override() {
    let args: Vec<String> = vec![
        "ponopush".to_string(),
        "config".to_string(),
        "api.max_tokens".to_string(),
        "500".to_string(),
    ];
    let cli = classify_args(&args);
    let s = load(None);
    let (_m, a) = Machine::start(s, cli);
    assert!(matches!(a, Action::PromptForToken));
}

#[test]
fn unexpected_event_ends_the_run() {
    let s = Settings {
        token: "sk-test".to_string(),
        url: "u".to_string(),
        model: "m".to_string(),
        max_tokens: 300,
    };
    let (m, a) = Machine::start(s, Cli::Run);
    assert!(matches!(a, Action::RunStatus));
    let (_m, a) = m.step(Event::Done);
    match a {
        Action::Exit { code, .. } => assert_eq!(code, 1),
        _ => panic!("expected an exit"),
    }
}

fn action_name(a: &Action) -> &'static str {
    match a {
        Action::PromptForToken => "prompt_for_token",
        Action::SaveSettings { .. } => "save_settings",
        Action::RunStatus => "run_status",
        Action::StageGitignore => "stage_gitignore",
        Action::StageAll => "stage_all",
        Action::ReadDiff => "read_diff",
        Action::ReadTemplate => "read_template",
        Action::SendRequest { .. } => "send_request",
        Action::OpenEditor { .. } => "open_editor",
        Action::Commit { .. } => "commit",
        Action::Push => "push",
        Action::RemoveScratch => "remove_scratch",
        Action::Exit { .. } => "exit",
    }
}
