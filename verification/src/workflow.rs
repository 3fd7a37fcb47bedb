//! The workflow orchestrator, as a state machine: from each phase and the
//! event that answers it, the next phase and the one action the surrounding
//! program must perform. The machine decides everything; the program around
//! it only reads files, runs git, sends the request, launches the editor, and
//! hands the outcome back as the next event.

use vstd::prelude::*;
use vstd::string::StringExecFns;
use crate::prompt::build_prompt;
use crate::request::build_request_body;
use crate::request::message_from_response;
use crate::request::parsed_content_of;
use crate::request::response_draft;
use crate::request::request_body_view;
use crate::settings::Settings;
use crate::settings::SettingsView;
use crate::settings::apply_override;
use crate::settings::override_view;
use crate::settings::render_view;
use crate::settings::save_text;
use crate::text::contains_sub;
use crate::text::is_blank;
use crate::text::spec_contains;
use crate::text::spec_is_blank;
use crate::text::spec_trim;
use crate::text::str_eq;
use crate::text::trim_ws;

verus! {

/// How the tool was invoked: a plain run, or one `config <key> <value>`
/// override.
pub enum Cli {
    Run,
    ConfigSet { key: String, value: String },
}

#[verifier::ext_equal]
pub ghost enum CliView {
    Run,
    ConfigSet { key: Seq<char>, value: Seq<char> },
}

impl View for Cli {
    type V = CliView;

    open spec fn view(&self) -> CliView {
        match self {
            Cli::Run => CliView::Run,
            Cli::ConfigSet { key, value } => CliView::ConfigSet { key: key@, value: value@ },
        }
    }
}

/// What the machine is waiting for. Each phase names the one event that
/// answers it; an event that does not ends the run.
pub enum Phase {
    AwaitToken,
    AwaitTokenSaved,
    AwaitOverrideSaved,
    AwaitStatus,
    AwaitGitignoreStaged,
    AwaitStaged,
    AwaitDiff,
    AwaitTemplate { diff: String },
    AwaitCompletion,
    AwaitEditor,
    AwaitCommitDone,
    AwaitPushDone,
    AwaitCleanup,
    Finished { code: u8 },
}

#[verifier::ext_equal]
pub ghost enum PhaseView {
    AwaitToken,
    AwaitTokenSaved,
    AwaitOverrideSaved,
    AwaitStatus,
    AwaitGitignoreStaged,
    AwaitStaged,
    AwaitDiff,
    AwaitTemplate { diff: Seq<char> },
    AwaitCompletion,
    AwaitEditor,
    AwaitCommitDone,
    AwaitPushDone,
    AwaitCleanup,
    Finished { code: int },
}

impl View for Phase {
    type V = PhaseView;

    open spec fn view(&self) -> PhaseView {
        match self {
            Phase::AwaitToken => PhaseView::AwaitToken,
            Phase::AwaitTokenSaved => PhaseView::AwaitTokenSaved,
            Phase::AwaitOverrideSaved => PhaseView::AwaitOverrideSaved,
            Phase::AwaitStatus => PhaseView::AwaitStatus,
            Phase::AwaitGitignoreStaged => PhaseView::AwaitGitignoreStaged,
            Phase::AwaitStaged => PhaseView::AwaitStaged,
            Phase::AwaitDiff => PhaseView::AwaitDiff,
            Phase::AwaitTemplate { diff } => PhaseView::AwaitTemplate { diff: diff@ },
            Phase::AwaitCompletion => PhaseView::AwaitCompletion,
            Phase::AwaitEditor => PhaseView::AwaitEditor,
            Phase::AwaitCommitDone => PhaseView::AwaitCommitDone,
            Phase::AwaitPushDone => PhaseView::AwaitPushDone,
            Phase::AwaitCleanup => PhaseView::AwaitCleanup,
            Phase::Finished { code } => PhaseView::Finished { code: *code as int },
        }
    }
}

/// What the surrounding program reports back to the machine.
pub enum Event {
    /// The interactive prompt collected this token text, untrimmed.
    TokenEntered { text: String },
    /// The settings file was written.
    Saved,
    /// The status listing of the repository.
    StatusOutput { text: String },
    /// A staging command was issued.
    Staged,
    /// The staged diff.
    DiffText { text: String },
    /// The instruction template.
    TemplateText { text: String },
    /// The completion endpoint answered with this response text.
    ResponseBody { text: String },
    /// The completion request failed in transport.
    CompletionFailed,
    /// The editor exited successfully leaving this text.
    Edited { text: String },
    /// The editor exited with failure.
    EditorFailed,
    /// The asked-for command was issued (commit, push, cleanup).
    Done,
}

#[verifier::ext_equal]
pub ghost enum EventView {
    TokenEntered { text: Seq<char> },
    Saved,
    StatusOutput { text: Seq<char> },
    Staged,
    DiffText { text: Seq<char> },
    TemplateText { text: Seq<char> },
    ResponseBody { text: Seq<char> },
    CompletionFailed,
    Edited { text: Seq<char> },
    EditorFailed,
    Done,
}

impl View for Event {
    type V = EventView;

    open spec fn view(&self) -> EventView {
        match self {
            Event::TokenEntered { text } => EventView::TokenEntered { text: text@ },
            Event::Saved => EventView::Saved,
            Event::StatusOutput { text } => EventView::StatusOutput { text: text@ },
            Event::Staged => EventView::Staged,
            Event::DiffText { text } => EventView::DiffText { text: text@ },
            Event::TemplateText { text } => EventView::TemplateText { text: text@ },
            Event::ResponseBody { text } => EventView::ResponseBody { text: text@ },
            Event::CompletionFailed => EventView::CompletionFailed,
            Event::Edited { text } => EventView::Edited { text: text@ },
            Event::EditorFailed => EventView::EditorFailed,
            Event::Done => EventView::Done,
        }
    }
}

/// What the surrounding program must do next.
pub enum Action {
    /// Ask the user for a token on the terminal.
    PromptForToken,
    /// Write this text over the settings file.
    SaveSettings { text: String },
    /// Run the repository status query.
    RunStatus,
    /// Stage the ignore file explicitly.
    StageGitignore,
    /// Stage every change in the working tree.
    StageAll,
    /// Read the staged diff.
    ReadDiff,
    /// Read the instruction template.
    ReadTemplate,
    /// Send this body to the endpoint with this bearer token.
    SendRequest { url: String, token: String, body: String },
    /// Write the draft to the scratch file and open the editor on it.
    OpenEditor { draft: String },
    /// Commit with exactly this message.
    Commit { message: String },
    /// Push the current branch.
    Push,
    /// Remove the scratch file.
    RemoveScratch,
    /// End the process with this code, after printing the error if any.
    Exit { code: u8, error: Option<String> },
}

#[verifier::ext_equal]
pub ghost enum ActionView {
    PromptForToken,
    SaveSettings { text: Seq<char> },
    RunStatus,
    StageGitignore,
    StageAll,
    ReadDiff,
    ReadTemplate,
    SendRequest { url: Seq<char>, token: Seq<char>, body: Seq<char> },
    OpenEditor { draft: Seq<char> },
    Commit { message: Seq<char> },
    Push,
    RemoveScratch,
    Exit { code: int, error: Option<Seq<char>> },
}

impl View for Action {
    type V = ActionView;

    open spec fn view(&self) -> ActionView {
        match self {
            Action::PromptForToken => ActionView::PromptForToken,
            Action::SaveSettings { text } => ActionView::SaveSettings { text: text@ },
            Action::RunStatus => ActionView::RunStatus,
            Action::StageGitignore => ActionView::StageGitignore,
            Action::StageAll => ActionView::StageAll,
            Action::ReadDiff => ActionView::ReadDiff,
            Action::ReadTemplate => ActionView::ReadTemplate,
            Action::SendRequest { url, token, body } => ActionView::SendRequest {
                url: url@,
                token: token@,
                body: body@,
            },
            Action::OpenEditor { draft } => ActionView::OpenEditor { draft: draft@ },
            Action::Commit { message } => ActionView::Commit { message: message@ },
            Action::Push => ActionView::Push,
            Action::RemoveScratch => ActionView::RemoveScratch,
            Action::Exit { code, error } => ActionView::Exit {
                code: *code as int,
                error: match error {
                    Some(t) => Some(t@),
                    None => None,
                },
            },
        }
    }
}

/// One run in progress: the settings in memory, how the tool was invoked, and
/// what it waits for.
pub struct Machine {
    pub settings: Settings,
    pub cli: Cli,
    pub phase: Phase,
}

#[verifier::ext_equal]
pub ghost struct MachineView {
    pub settings: SettingsView,
    pub cli: CliView,
    pub phase: PhaseView,
}

impl View for Machine {
    type V = MachineView;

    open spec fn view(&self) -> MachineView {
        MachineView { settings: self.settings@, cli: self.cli@, phase: self.phase@ }
    }
}

/// The fixed draft used when the completion request itself fails.
pub open spec fn fallback_text() -> Seq<char> {
    "Failed to get commit message from OpenAI"@
}

/// The draft shown for a response text: its content, the placeholder when the
/// parsed response carries none, and the failure fallback when the text is
/// not JSON at all — a response that cannot be read counts as a failed
/// request.
pub open spec fn draft_for_response(body: Seq<char>) -> Seq<char> {
    match response_draft(parsed_content_of(body)) {
        Some(d) => d,
        None => fallback_text(),
    }
}

/// How a command line is read: exactly `config <key> <value>` after the
/// program name selects the override branch; any other command line runs the
/// full workflow.
pub open spec fn cli_of_args(args: Seq<Seq<char>>) -> CliView {
    if args.len() == 4 && args[1] == "config"@ {
        CliView::ConfigSet { key: args[2], value: args[3] }
    } else {
        CliView::Run
    }
}

/// Reads the command line.
pub fn classify_args(args: &Vec<String>) -> (r: Cli)
    ensures
        r@ == cli_of_args(args.deep_view()),
{
    if args.len() == 4 {
        if str_eq(args[1].as_str(), "config") {
            return Cli::ConfigSet { key: args[2].clone(), value: args[3].clone() };
        }
    }
    Cli::Run
}

/// Where the run goes once a token is ensured: the override branch saves and
/// stops, an unknown key is reported and changes nothing, a plain run starts
/// with the status query.
pub open spec fn spec_after_token(s: SettingsView, cli: CliView) -> (MachineView, ActionView) {
    match cli {
        CliView::Run => (
            MachineView { settings: s, cli, phase: PhaseView::AwaitStatus },
            ActionView::RunStatus,
        ),
        CliView::ConfigSet { key, value } => match override_view(s, key, value) {
            Some(s2) => (
                MachineView { settings: s2, cli, phase: PhaseView::AwaitOverrideSaved },
                ActionView::SaveSettings { text: render_view(s2) },
            ),
            None => (
                MachineView { settings: s, cli, phase: PhaseView::Finished { code: 0 } },
                ActionView::Exit { code: 0, error: Some("Invalid configuration key"@) },
            ),
        },
    }
}

/// The first action of a run: a missing token is acquired interactively
/// before anything else happens.
pub open spec fn spec_start(s: SettingsView, cli: CliView) -> (MachineView, ActionView) {
    if s.token.len() == 0 {
        (MachineView { settings: s, cli, phase: PhaseView::AwaitToken }, ActionView::PromptForToken)
    } else {
        spec_after_token(s, cli)
    }
}

/// The transition relation: from the waiting phase and the event that answers
/// it, the next machine and the action asked of the surrounding program. An
/// event that does not answer the waiting phase ends the run with code 1.
pub open spec fn spec_step(m: MachineView, e: EventView) -> (MachineView, ActionView) {
    match (m.phase, e) {
        (PhaseView::AwaitToken, EventView::TokenEntered { text }) => if spec_trim(text).len()
            == 0 {
            // An entry that trims to nothing leaves the token missing: ask
            // again rather than store and proceed with an empty token.
            (m, ActionView::PromptForToken)
        } else {
            let s2 = SettingsView { token: spec_trim(text), ..m.settings };
            (
                MachineView { settings: s2, phase: PhaseView::AwaitTokenSaved, ..m },
                ActionView::SaveSettings { text: render_view(s2) },
            )
        },
        (PhaseView::AwaitTokenSaved, EventView::Saved) => spec_after_token(m.settings, m.cli),
        (PhaseView::AwaitOverrideSaved, EventView::Saved) => (
            MachineView { phase: PhaseView::Finished { code: 0 }, ..m },
            ActionView::Exit { code: 0, error: None },
        ),
        (PhaseView::AwaitStatus, EventView::StatusOutput { text }) => if spec_contains(
            text,
            ".gitignore"@,
        ) {
            (MachineView { phase: PhaseView::AwaitStaged, ..m }, ActionView::StageAll)
        } else {
            (
                MachineView { phase: PhaseView::AwaitGitignoreStaged, ..m },
                ActionView::StageGitignore,
            )
        },
        (PhaseView::AwaitGitignoreStaged, EventView::Staged) => (
            MachineView { phase: PhaseView::AwaitStaged, ..m },
            ActionView::StageAll,
        ),
        (PhaseView::AwaitStaged, EventView::Staged) => (
            MachineView { phase: PhaseView::AwaitDiff, ..m },
            ActionView::ReadDiff,
        ),
        (PhaseView::AwaitDiff, EventView::DiffText { text }) => (
            MachineView { phase: PhaseView::AwaitTemplate { diff: text }, ..m },
            ActionView::ReadTemplate,
        ),
        (PhaseView::AwaitTemplate { diff }, EventView::TemplateText { text }) => (
            MachineView { phase: PhaseView::AwaitCompletion, ..m },
            ActionView::SendRequest {
                url: m.settings.url,
                token: m.settings.token,
                body: request_body_view(m.settings.model, m.settings.max_tokens, text + diff),
            },
        ),
        (PhaseView::AwaitCompletion, EventView::ResponseBody { text }) => (
            MachineView { phase: PhaseView::AwaitEditor, ..m },
            ActionView::OpenEditor { draft: draft_for_response(text) },
        ),
        (PhaseView::AwaitCompletion, EventView::CompletionFailed) => (
            MachineView { phase: PhaseView::AwaitEditor, ..m },
            ActionView::OpenEditor { draft: fallback_text() },
        ),
        (PhaseView::AwaitEditor, EventView::EditorFailed) => (
            MachineView { phase: PhaseView::Finished { code: 1 }, ..m },
            ActionView::Exit { code: 1, error: Some("Editor exited with an error."@) },
        ),
        (PhaseView::AwaitEditor, EventView::Edited { text }) => if spec_is_blank(text) {
            (
                MachineView { phase: PhaseView::Finished { code: 1 }, ..m },
                ActionView::Exit { code: 1, error: Some("Commit message cannot be empty."@) },
            )
        } else {
            (
                MachineView { phase: PhaseView::AwaitCommitDone, ..m },
                ActionView::Commit { message: text },
            )
        },
        (PhaseView::AwaitCommitDone, EventView::Done) => (
            MachineView { phase: PhaseView::AwaitPushDone, ..m },
            ActionView::Push,
        ),
        (PhaseView::AwaitPushDone, EventView::Done) => (
            MachineView { phase: PhaseView::AwaitCleanup, ..m },
            ActionView::RemoveScratch,
        ),
        (PhaseView::AwaitCleanup, EventView::Done) => (
            MachineView { phase: PhaseView::Finished { code: 0 }, ..m },
            ActionView::Exit { code: 0, error: None },
        ),
        (PhaseView::Finished { code }, _) => (m, ActionView::Exit { code, error: None }),
        _ => (
            MachineView { phase: PhaseView::Finished { code: 1 }, ..m },
            ActionView::Exit { code: 1, error: None },
        ),
    }
}

impl Machine {
    /// Begins a run with the loaded settings and the parsed command line.
    pub fn start(settings: Settings, cli: Cli) -> (r: (Machine, Action))
        ensures
            (r.0@, r.1@) == spec_start(settings@, cli@),
    {
        if settings.token.as_str().unicode_len() == 0 {
            (Machine { settings, cli, phase: Phase::AwaitToken }, Action::PromptForToken)
        } else {
            Self::after_token(settings, cli)
        }
    }

    fn after_token(settings: Settings, cli: Cli) -> (r: (Machine, Action))
        ensures
            (r.0@, r.1@) == spec_after_token(settings@, cli@),
    {
        match cli {
            Cli::Run => (
                Machine { settings, cli: Cli::Run, phase: Phase::AwaitStatus },
                Action::RunStatus,
            ),
            Cli::ConfigSet { key, value } => {
                let mut s2 = settings;
                let ok = apply_override(&mut s2, key.as_str(), value.as_str());
                let cli2 = Cli::ConfigSet { key, value };
                if ok {
                    let text = save_text(&s2);
                    (
                        Machine { settings: s2, cli: cli2, phase: Phase::AwaitOverrideSaved },
                        Action::SaveSettings { text },
                    )
                } else {
                    (
                        Machine { settings: s2, cli: cli2, phase: Phase::Finished { code: 0 } },
                        Action::Exit {
                            code: 0,
                            error: Some("Invalid configuration key".to_owned()),
                        },
                    )
                }
            },
        }
    }

    /// One transition of the run.
    pub fn step(self, e: Event) -> (r: (Machine, Action))
        ensures
            (r.0@, r.1@) == spec_step(self@, e@),
    {
        let Machine { settings, cli, phase } = self;
        match (phase, e) {
            (Phase::AwaitToken, Event::TokenEntered { text }) => {
                let trimmed = trim_ws(text.as_str());
                if trimmed.as_str().unicode_len() == 0 {
                    (
                        Machine { settings, cli, phase: Phase::AwaitToken },
                        Action::PromptForToken,
                    )
                } else {
                    let mut s2 = settings;
                    s2.token = trimmed;
                    let out = save_text(&s2);
                    (
                        Machine { settings: s2, cli, phase: Phase::AwaitTokenSaved },
                        Action::SaveSettings { text: out },
                    )
                }
            },
            (Phase::AwaitTokenSaved, Event::Saved) => Self::after_token(settings, cli),
            (Phase::AwaitOverrideSaved, Event::Saved) => (
                Machine { settings, cli, phase: Phase::Finished { code: 0 } },
                Action::Exit { code: 0, error: None },
            ),
            (Phase::AwaitStatus, Event::StatusOutput { text }) => {
                if contains_sub(text.as_str(), ".gitignore") {
                    (Machine { settings, cli, phase: Phase::AwaitStaged }, Action::StageAll)
                } else {
                    (
                        Machine { settings, cli, phase: Phase::AwaitGitignoreStaged },
                        Action::StageGitignore,
                    )
                }
            },
            (Phase::AwaitGitignoreStaged, Event::Staged) => (
                Machine { settings, cli, phase: Phase::AwaitStaged },
                Action::StageAll,
            ),
            (Phase::AwaitStaged, Event::Staged) => (
                Machine { settings, cli, phase: Phase::AwaitDiff },
                Action::ReadDiff,
            ),
            (Phase::AwaitDiff, Event::DiffText { text }) => (
                Machine { settings, cli, phase: Phase::AwaitTemplate { diff: text } },
                Action::ReadTemplate,
            ),
            (Phase::AwaitTemplate { diff }, Event::TemplateText { text }) => {
                let prompt = build_prompt(text.as_str(), diff.as_str());
                let body = build_request_body(
                    settings.model.as_str(),
                    settings.max_tokens,
                    prompt.as_str(),
                );
                let url = settings.url.clone();
                let token = settings.token.clone();
                (
                    Machine { settings, cli, phase: Phase::AwaitCompletion },
                    Action::SendRequest { url, token, body },
                )
            },
            (Phase::AwaitCompletion, Event::ResponseBody { text }) => {
                let draft = match message_from_response(text.as_str()) {
                    Some(d) => d,
                    None => fallback_draft(),
                };
                (
                    Machine { settings, cli, phase: Phase::AwaitEditor },
                    Action::OpenEditor { draft },
                )
            },
            (Phase::AwaitCompletion, Event::CompletionFailed) => (
                Machine { settings, cli, phase: Phase::AwaitEditor },
                Action::OpenEditor { draft: fallback_draft() },
            ),
            (Phase::AwaitEditor, Event::EditorFailed) => (
                Machine { settings, cli, phase: Phase::Finished { code: 1 } },
                Action::Exit { code: 1, error: Some("Editor exited with an error.".to_owned()) },
            ),
            (Phase::AwaitEditor, Event::Edited { text }) => {
                if is_blank(text.as_str()) {
                    (
                        Machine { settings, cli, phase: Phase::Finished { code: 1 } },
                        Action::Exit {
                            code: 1,
                            error: Some("Commit message cannot be empty.".to_owned()),
                        },
                    )
                } else {
                    (
                        Machine { settings, cli, phase: Phase::AwaitCommitDone },
                        Action::Commit { message: text },
                    )
                }
            },
            (Phase::AwaitCommitDone, Event::Done) => (
                Machine { settings, cli, phase: Phase::AwaitPushDone },
                Action::Push,
            ),
            (Phase::AwaitPushDone, Event::Done) => (
                Machine { settings, cli, phase: Phase::AwaitCleanup },
                Action::RemoveScratch,
            ),
            (Phase::AwaitCleanup, Event::Done) => (
                Machine { settings, cli, phase: Phase::Finished { code: 0 } },
                Action::Exit { code: 0, error: None },
            ),
            (Phase::Finished { code }, _) => (
                Machine { settings, cli, phase: Phase::Finished { code } },
                Action::Exit { code, error: None },
            ),
            _ => (
                Machine { settings, cli, phase: Phase::Finished { code: 1 } },
                Action::Exit { code: 1, error: None },
            ),
        }
    }
}

/// The fixed draft used when the completion request itself fails.
pub fn fallback_draft() -> (r: String)
    ensures
        r@ == fallback_text(),
{
    "Failed to get commit message from OpenAI".to_owned()
}

/// A failed completion request still reaches review: the step degrades to the
/// fixed fallback draft, which is not empty, and the run goes on to the
/// editor instead of ending.
pub proof fn lemma_completion_failure_reaches_editor(m: MachineView)
    requires
        m.phase is AwaitCompletion,
    ensures
        spec_step(m, EventView::CompletionFailed).0.phase is AwaitEditor,
        spec_step(m, EventView::CompletionFailed).1 == (ActionView::OpenEditor {
            draft: fallback_text(),
        }),
        fallback_text().len() > 0,
{
    reveal_strlit("Failed to get commit message from OpenAI");
}

/// A response that is not JSON degrades like a transport failure: the run
/// still reaches the editor, with the same non-empty fallback draft, and the
/// placeholder is reserved for a response that parsed but carried no content.
pub proof fn lemma_unreadable_response_reaches_editor(m: MachineView, body: Seq<char>)
    requires
        m.phase is AwaitCompletion,
        parsed_content_of(body) is None,
    ensures
        spec_step(m, EventView::ResponseBody { text: body }).0.phase is AwaitEditor,
        spec_step(m, EventView::ResponseBody { text: body }).1 == (ActionView::OpenEditor {
            draft: fallback_text(),
        }),
{
}

/// A blank edited message ends the run with code 1, with the error shown, and
/// asks for nothing else: in particular no commit and no push.
pub proof fn lemma_blank_message_aborts(m: MachineView, text: Seq<char>)
    requires
        m.phase is AwaitEditor,
        spec_is_blank(text),
    ensures
        spec_step(m, EventView::Edited { text }).0.phase == (PhaseView::Finished { code: 1 }),
        spec_step(m, EventView::Edited { text }).1 == (ActionView::Exit {
            code: 1,
            error: Some("Commit message cannot be empty."@),
        }),
{
}

/// A non-blank edited message is committed verbatim — the commit action
/// carries exactly the edited text — and the acknowledged commit is followed
/// by the push.
pub proof fn lemma_nonblank_message_commits_verbatim(m: MachineView, text: Seq<char>)
    requires
        m.phase is AwaitEditor,
        !spec_is_blank(text),
    ensures
        spec_step(m, EventView::Edited { text }).1 == (ActionView::Commit { message: text }),
        spec_step(m, EventView::Edited { text }).0.phase is AwaitCommitDone,
        spec_step(spec_step(m, EventView::Edited { text }).0, EventView::Done).1
            is Push,
{
}

/// A recognised configuration override saves the new settings and stops: the
/// only actions of such a run are the save and the exit, never a git,
/// completion or editor action.
pub proof fn lemma_config_short_circuit(s: SettingsView, key: Seq<char>, value: Seq<char>)
    requires
        override_view(s, key, value) is Some,
    ensures
        spec_after_token(s, CliView::ConfigSet { key, value }).1 == (ActionView::SaveSettings {
            text: render_view(override_view(s, key, value)->Some_0),
        }),
        spec_after_token(s, CliView::ConfigSet { key, value }).0.phase is AwaitOverrideSaved,
        spec_step(spec_after_token(s, CliView::ConfigSet { key, value }).0, EventView::Saved).0.phase
            == (PhaseView::Finished { code: 0 }),
        spec_step(spec_after_token(s, CliView::ConfigSet { key, value }).0, EventView::Saved).1
            == (ActionView::Exit { code: 0, error: None }),
{
}

/// The completion request is built from the settings in force: the configured
/// endpoint and token, and a body that carries the configured model and token
/// cap with the prompt, the template followed by the diff.
pub proof fn lemma_request_uses_settings(m: MachineView, diff: Seq<char>, template: Seq<char>)
    requires
        m.phase == (PhaseView::AwaitTemplate { diff }),
    ensures
        spec_step(m, EventView::TemplateText { text: template }).1 == (ActionView::SendRequest {
            url: m.settings.url,
            token: m.settings.token,
            body: request_body_view(m.settings.model, m.settings.max_tokens, template + diff),
        }),
{
}

/// The actions a machine asks for over a sequence of events.
pub open spec fn spec_trace(m: MachineView, events: Seq<EventView>) -> Seq<ActionView>
    decreases events.len(),
{
    if events.len() == 0 {
        Seq::empty()
    } else {
        seq![spec_step(m, events[0]).1] + spec_trace(spec_step(m, events[0]).0, events.drop_first())
    }
}

pub open spec fn count_commits(t: Seq<ActionView>) -> nat
    decreases t.len(),
{
    if t.len() == 0 {
        0
    } else {
        (if t[0] is Commit {
            1nat
        } else {
            0
        }) + count_commits(t.drop_first())
    }
}

pub open spec fn count_pushes(t: Seq<ActionView>) -> nat
    decreases t.len(),
{
    if t.len() == 0 {
        0
    } else {
        (if t[0] is Push {
            1nat
        } else {
            0
        }) + count_pushes(t.drop_first())
    }
}

pub open spec fn count_requests(t: Seq<ActionView>) -> nat
    decreases t.len(),
{
    if t.len() == 0 {
        0
    } else {
        (if t[0] is SendRequest {
            1nat
        } else {
            0
        }) + count_requests(t.drop_first())
    }
}

/// The phases a run can only be in once the completion request was sent.
pub open spec fn past_request(p: PhaseView) -> bool {
    p is AwaitCompletion || p is AwaitEditor || p is AwaitCommitDone || p is AwaitPushDone
        || p is AwaitCleanup || p is Finished
}

/// The phases a run can only be in once the commit was asked for.
pub open spec fn past_commit(p: PhaseView) -> bool {
    p is AwaitCommitDone || p is AwaitPushDone || p is AwaitCleanup || p is Finished
}

/// The phases a run can only be in once the push was asked for.
pub open spec fn past_push(p: PhaseView) -> bool {
    p is AwaitPushDone || p is AwaitCleanup || p is Finished
}

proof fn lemma_step_commit_push(m: MachineView, e: EventView)
    ensures
        past_commit(m.phase) ==> past_commit(spec_step(m, e).0.phase) && !(spec_step(m, e).1
            is Commit),
        past_push(m.phase) ==> past_push(spec_step(m, e).0.phase) && !(spec_step(m, e).1 is Push),
        spec_step(m, e).1 is Commit ==> past_commit(spec_step(m, e).0.phase),
        spec_step(m, e).1 is Push ==> m.phase is AwaitCommitDone && past_push(
            spec_step(m, e).0.phase,
        ),
        spec_step(m, e).0.phase is AwaitCommitDone ==> spec_step(m, e).1 is Commit,
{
}

proof fn lemma_step_request(m: MachineView, e: EventView)
    ensures
        past_request(m.phase) ==> past_request(spec_step(m, e).0.phase) && !(spec_step(m, e).1
            is SendRequest),
        spec_step(m, e).1 is SendRequest ==> past_request(spec_step(m, e).0.phase),
{
}

/// Over any whole run, however the events fall, the machine asks for at most
/// one commit, at most one push, and at most one completion request: nothing
/// is ever retried.
pub proof fn lemma_at_most_one_commit_and_push(m: MachineView, events: Seq<EventView>)
    ensures
        count_commits(spec_trace(m, events)) <= (if past_commit(m.phase) {
            0nat
        } else {
            1
        }),
        count_pushes(spec_trace(m, events)) <= (if past_push(m.phase) {
            0nat
        } else {
            1
        }),
        count_requests(spec_trace(m, events)) <= (if past_request(m.phase) {
            0nat
        } else {
            1
        }),
    decreases events.len(),
{
    if events.len() > 0 {
        let m2 = spec_step(m, events[0]).0;
        let a = spec_step(m, events[0]).1;
        lemma_step_commit_push(m, events[0]);
        lemma_step_request(m, events[0]);
        lemma_at_most_one_commit_and_push(m2, events.drop_first());
        assert(spec_trace(m, events).drop_first() =~= spec_trace(m2, events.drop_first()));
    }
}

proof fn lemma_count_pushes_positive(t: Seq<ActionView>, k: int)
    requires
        0 <= k < t.len(),
        t[k] is Push,
    ensures
        count_pushes(t) > 0,
    decreases t.len(),
{
    if k > 0 {
        lemma_count_pushes_positive(t.drop_first(), k - 1);
    }
}

/// A push is only ever asked for after a commit was: any push in a run's
/// actions is preceded by a commit earlier in them.
pub proof fn lemma_push_only_after_commit(m: MachineView, events: Seq<EventView>, j: int)
    requires
        !past_commit(m.phase),
        0 <= j < spec_trace(m, events).len(),
        spec_trace(m, events)[j] is Push,
    ensures
        exists|i: int| 0 <= i < j && #[trigger] spec_trace(m, events)[i] is Commit,
    decreases events.len(),
{
    let t = spec_trace(m, events);
    let m2 = spec_step(m, events[0]).0;
    let a = spec_step(m, events[0]).1;
    lemma_step_commit_push(m, events[0]);
    let tail = spec_trace(m2, events.drop_first());
    assert(t.drop_first() =~= tail);
    if j == 0 {
        assert(a is Push);
        assert(past_commit(m.phase));
    } else {
        assert(tail[j - 1] is Push);
        if a is Commit {
            assert(t[0] is Commit);
        } else if past_commit(m2.phase) {
            lemma_commit_phase_entered(m, events[0]);
            lemma_at_most_one_commit_and_push(m2, events.drop_first());
            lemma_count_pushes_positive(tail, j - 1);
        } else {
            lemma_push_only_after_commit(m2, events.drop_first(), j - 1);
            let i = choose|i: int| 0 <= i < j - 1 && #[trigger] tail[i] is Commit;
            assert(t[i + 1] is Commit);
        }
    }
}

proof fn lemma_commit_phase_entered(m: MachineView, e: EventView)
    requires
        !past_commit(m.phase),
        past_commit(spec_step(m, e).0.phase),
    ensures
        spec_step(m, e).1 is Commit || spec_step(m, e).0.phase is Finished,
{
}

/// From a finished run nothing is ever asked for again but the exit itself:
/// in particular no commit and no push.
pub proof fn lemma_finished_asks_nothing(m: MachineView, events: Seq<EventView>)
    requires
        m.phase is Finished,
    ensures
        count_commits(spec_trace(m, events)) == 0,
        count_pushes(spec_trace(m, events)) == 0,
{
    lemma_at_most_one_commit_and_push(m, events);
}

/// The token has been ensured: in every phase from which the run can still
/// reach the completion request, the settings hold a non-empty token.
pub open spec fn token_ensured(m: MachineView) -> bool {
    (m.phase is AwaitTokenSaved || m.phase is AwaitStatus || m.phase is AwaitGitignoreStaged
        || m.phase is AwaitStaged || m.phase is AwaitDiff || m.phase is AwaitTemplate)
        ==> m.settings.token.len() > 0
}

/// A begun run has its token ensured, and its first action is never the
/// completion request itself.
pub proof fn lemma_start_token_ensured(s: SettingsView, cli: CliView)
    ensures
        token_ensured(spec_start(s, cli).0),
        !(spec_start(s, cli).1 is SendRequest),
{
}

/// One step keeps the token ensured, and any completion request it asks for
/// carries a non-empty bearer token.
pub proof fn lemma_step_token_ensured(m: MachineView, e: EventView)
    requires
        token_ensured(m),
    ensures
        token_ensured(spec_step(m, e).0),
        spec_step(m, e).1 matches ActionView::SendRequest { token, .. } ==> token.len() > 0,
{
}

/// No completion request is ever issued without a token: over any whole run
/// whose token is ensured — as it is from the start — every request action
/// carries a non-empty bearer token.
pub proof fn lemma_no_request_without_token(m: MachineView, events: Seq<EventView>, j: int)
    requires
        token_ensured(m),
        0 <= j < spec_trace(m, events).len(),
    ensures
        spec_trace(m, events)[j] matches ActionView::SendRequest { token, .. } ==> token.len()
            > 0,
    decreases events.len(),
{
    lemma_step_token_ensured(m, events[0]);
    assert(spec_trace(m, events).drop_first() =~= spec_trace(
        spec_step(m, events[0]).0,
        events.drop_first(),
    ));
    if j > 0 {
        lemma_no_request_without_token(spec_step(m, events[0]).0, events.drop_first(), j - 1);
    }
}

proof fn lemma_trace_exits_only(m: MachineView, events: Seq<EventView>, j: int)
    requires
        m.phase is AwaitOverrideSaved || m.phase is Finished,
        0 <= j < spec_trace(m, events).len(),
    ensures
        spec_trace(m, events)[j] is Exit,
    decreases events.len(),
{
    assert(spec_trace(m, events).drop_first() =~= spec_trace(
        spec_step(m, events[0]).0,
        events.drop_first(),
    ));
    if j > 0 {
        lemma_trace_exits_only(spec_step(m, events[0]).0, events.drop_first(), j - 1);
    }
}

/// A run begun with a recognised override and an ensured token asks for the
/// save first and after that only ever for the exit: no git, completion or
/// editor action occurs anywhere in such an invocation.
pub proof fn lemma_config_run_only_saves(
    s: SettingsView,
    key: Seq<char>,
    value: Seq<char>,
    events: Seq<EventView>,
    j: int,
)
    requires
        s.token.len() > 0,
        override_view(s, key, value) is Some,
        0 <= j < spec_trace(spec_start(s, CliView::ConfigSet { key, value }).0, events).len(),
    ensures
        spec_start(s, CliView::ConfigSet { key, value }).1 == (ActionView::SaveSettings {
            text: render_view(override_view(s, key, value)->Some_0),
        }),
        spec_trace(spec_start(s, CliView::ConfigSet { key, value }).0, events)[j] is Exit,
{
    lemma_trace_exits_only(spec_start(s, CliView::ConfigSet { key, value }).0, events, j);
}

} // verus!
